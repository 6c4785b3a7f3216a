//! The stack of screens.
//!
//! The screen on top of the stack is the active one. Once per frame it is
//! taken off the stack and updated; the transition that it answers with says
//! what goes back on: the screen itself or another in its place, the screen
//! and an overlay on top of it, or nothing, which uncovers the screen
//! beneath. The screens beneath the top are drawn but never updated.

use vstd::prelude::*;
use crate::board::Board;
use crate::board::count_uncovered;
use crate::draw::DrawCommand;
use crate::draw::Message;
use crate::mines::MINES_COUNT;
use crate::mouse::Mouse;
use crate::timer::TimerView;

pub mod gameover;
pub mod gamewon;
pub mod ingame;
pub mod initial;
pub mod mainmenu;
pub mod pause;
pub mod pregame;

pub use self::gameover::GameOverState;
pub use self::gamewon::GameWonState;
pub use self::ingame::InGameState;
pub use self::ingame::InGameView;
pub use self::ingame::STATUS_AT;
pub use self::initial::InitialState;
pub use self::mainmenu::MainMenuState;
pub use self::pause::PauseState;
pub use self::pregame::PreGameState;

verus! {

/// The width of the field of a game, in tiles.
pub const FIELD_WIDTH: usize = 16;

/// The height of the field of a game, in tiles.
pub const FIELD_HEIGHT: usize = 14;

/// The pixel at which the field of a game begins: the band above it holds
/// the counters.
pub const FIELD_ORIGIN: (i32, i32) = (0, 20);

/// Where the main menu writes the title.
pub const TITLE_AT: (i32, i32) = (40, 60);

/// Where the main menu writes the hint to click.
pub const HINT_AT: (i32, i32) = (32, 80);

/// A screen. Each variant holds what that screen needs, and nothing else.
#[derive(Clone, Debug)]
pub enum State {
    /// The screen that the machine starts with.
    Initial(InitialState),
    /// The field before the first reveal.
    PreGame(PreGameState),
    /// A running game.
    InGame(InGameState),
    /// A lost game.
    GameOver(GameOverState),
    /// A won game.
    GameWon(GameWonState),
    /// The pause overlay.
    Pause(PauseState),
    /// The main menu.
    MainMenu(MainMenuState),
}

/// What a screen's update asks of the stack, from which the screen has been
/// taken.
#[derive(Debug)]
pub enum Transition {
    /// The given screen goes on the stack: the updated screen itself, to
    /// stay, or another in its place.
    Replace(State),
    /// The first screen goes back on the stack and the second on top of it.
    Push(State, State),
    /// Nothing goes on the stack: the screen beneath is the active one now.
    Pop,
}

/// What a `State` stands for in contracts.
pub enum StateView {
    Initial,
    PreGame(Board),
    InGame(InGameView),
    GameOver,
    GameWon,
    Pause,
    MainMenu(u64),
}

/// What a `Transition` stands for in contracts.
pub enum TransitionView {
    Replace(StateView),
    Push(StateView, StateView),
    Pop,
}

impl StateView {
    /// The field of the screen, if it has one, is well formed and fits the
    /// machine, and so does the mine set of a game.
    pub open spec fn wf(self) -> bool {
        match self {
            StateView::PreGame(board) => board.wf() && board.fits(),
            StateView::InGame(game) => game.wf(),
            _ => true,
        }
    }

    /// A screen that lies on top of another one and gives way to it.
    pub open spec fn is_overlay(self) -> bool {
        self is Pause
    }

    /// The name of the screen.
    pub open spec fn name(self) -> Seq<char> {
        match self {
            StateView::Initial => "initial"@,
            StateView::PreGame(_) => "pre_game"@,
            StateView::InGame(_) => "in_game"@,
            StateView::GameOver => "game_over"@,
            StateView::GameWon => "game_won"@,
            StateView::Pause => "pause"@,
            StateView::MainMenu(_) => "main_menu"@,
        }
    }

    /// What the update of the screen answers to a frame with the pointer as
    /// `mouse` has it.
    pub open spec fn next(self, mouse: Mouse) -> TransitionView {
        match self {
            StateView::Initial => TransitionView::Replace(StateView::MainMenu(0)),
            StateView::MainMenu(frames) => if mouse.left {
                TransitionView::Replace(
                    StateView::PreGame(
                        Board::fresh(
                            frames,
                            FIELD_WIDTH as int,
                            FIELD_HEIGHT as int,
                            (FIELD_ORIGIN.0 as int, FIELD_ORIGIN.1 as int),
                        ),
                    ),
                )
            } else {
                TransitionView::Replace(StateView::MainMenu(frames.wrapping_add(1)))
            },
            StateView::PreGame(board) => match board.tile_under(mouse.x as int, mouse.y as int) {
                Some(first) if mouse.left => TransitionView::Replace(
                    StateView::InGame(
                        InGameView {
                            board,
                            timer: TimerView::zero(),
                            mines: board.mine_layout(MINES_COUNT as nat, first),
                        }.updated(mouse),
                    ),
                ),
                _ => TransitionView::Replace(self),
            },
            StateView::InGame(game) => TransitionView::Replace(
                StateView::InGame(game.updated(mouse)),
            ),
            StateView::GameOver | StateView::GameWon => if mouse.left {
                TransitionView::Replace(StateView::MainMenu(0))
            } else {
                TransitionView::Replace(self)
            },
            StateView::Pause => if mouse.left {
                TransitionView::Pop
            } else {
                TransitionView::Replace(self)
            },
        }
    }

    /// Only an overlay takes itself off the stack. Every other screen
    /// answers with one screen to take its place, and that is no overlay.
    pub proof fn lemma_screen_is_replaced(self, mouse: Mouse)
        requires
            !self.is_overlay(),
        ensures
            self.next(mouse) matches TransitionView::Replace(state) && !state.is_overlay(),
    {
    }

    /// An overlay answers with itself, to stay, or with nothing, to go.
    pub proof fn lemma_overlay_stays_or_goes(self, mouse: Mouse)
        requires
            self.is_overlay(),
        ensures
            self.next(mouse) == TransitionView::Replace(self) || self.next(mouse)
                == TransitionView::Pop,
    {
    }

    /// What the screen shows, without the command that puts the draw colors
    /// back.
    pub open spec fn picture(self) -> Seq<DrawCommand> {
        match self {
            StateView::Initial => Seq::empty(),
            StateView::PreGame(board) => board.drawn(Seq::empty()),
            StateView::InGame(game) => game.picture(),
            StateView::GameOver => seq![
                DrawCommand::Banner { message: Message::GameOver, x: STATUS_AT.0, y: STATUS_AT.1 },
            ],
            StateView::GameWon => seq![
                DrawCommand::Banner { message: Message::GameWon, x: STATUS_AT.0, y: STATUS_AT.1 },
            ],
            StateView::Pause => seq![
                DrawCommand::Banner { message: Message::Paused, x: STATUS_AT.0, y: STATUS_AT.1 },
            ],
            StateView::MainMenu(_) => seq![
                DrawCommand::Banner { message: Message::Title, x: TITLE_AT.0, y: TITLE_AT.1 },
                DrawCommand::Banner { message: Message::ClickToStart, x: HINT_AT.0, y: HINT_AT.1 },
            ],
        }
    }

    /// What the screen draws when `colors` are the draw colors in force: what
    /// it shows, and then the command that sets `colors` again, so that the
    /// colors that the screen has set do not reach the next screen.
    pub open spec fn drawn(self, colors: u16) -> Seq<DrawCommand> {
        self.picture().push(DrawCommand::Colors(colors))
    }
}

impl TransitionView {
    /// The screens that the transition carries are well formed.
    pub open spec fn wf(self) -> bool {
        match self {
            TransitionView::Replace(state) => state.wf(),
            TransitionView::Push(beneath, top) => beneath.wf() && top.wf(),
            TransitionView::Pop => true,
        }
    }

    /// The stack after the transition, where `rest` is the stack without the
    /// screen that was updated.
    pub open spec fn applied(self, rest: Seq<StateView>) -> Seq<StateView> {
        match self {
            TransitionView::Replace(state) => rest.push(state),
            TransitionView::Push(beneath, top) => rest.push(beneath).push(top),
            TransitionView::Pop => rest,
        }
    }
}

impl View for State {
    type V = StateView;

    open spec fn view(&self) -> StateView {
        match self {
            State::Initial(_) => StateView::Initial,
            State::PreGame(state) => StateView::PreGame(state@),
            State::InGame(state) => StateView::InGame(state@),
            State::GameOver(_) => StateView::GameOver,
            State::GameWon(_) => StateView::GameWon,
            State::Pause(_) => StateView::Pause,
            State::MainMenu(state) => StateView::MainMenu(state.frames),
        }
    }
}

impl View for Transition {
    type V = TransitionView;

    open spec fn view(&self) -> TransitionView {
        match self {
            Transition::Replace(state) => TransitionView::Replace(state@),
            Transition::Push(beneath, top) => TransitionView::Push(beneath@, top@),
            Transition::Pop => TransitionView::Pop,
        }
    }
}

impl State {
    /// The name of the screen.
    pub fn name(&self) -> (name: &'static str)
        ensures
            name@ == self@.name(),
    {
        match self {
            State::Initial(_) => "initial",
            State::PreGame(_) => "pre_game",
            State::InGame(_) => "in_game",
            State::GameOver(_) => "game_over",
            State::GameWon(_) => "game_won",
            State::Pause(_) => "pause",
            State::MainMenu(_) => "main_menu",
        }
    }

    /// What the screen draws when `colors` are the draw colors in force. The
    /// last command sets `colors` again.
    pub fn draw(&self, colors: u16) -> (commands: Vec<DrawCommand>)
        requires
            self@.wf(),
        ensures
            commands@ == self@.drawn(colors),
            commands@.len() > 0,
            commands@.last() == DrawCommand::Colors(colors),
    {
        match self {
            State::Initial(state) => state.draw(colors),
            State::PreGame(state) => state.draw(colors),
            State::InGame(state) => state.draw(colors),
            State::GameOver(state) => state.draw(colors),
            State::GameWon(state) => state.draw(colors),
            State::Pause(state) => state.draw(colors),
            State::MainMenu(state) => state.draw(colors),
        }
    }

    /// One frame of the screen: it is used up, and what is left of it comes
    /// back in the transition.
    pub fn update(self, mouse: &Mouse) -> (transition: Transition)
        requires
            self@.wf(),
        ensures
            transition@ == self@.next(*mouse),
            transition@.wf(),
    {
        match self {
            State::Initial(state) => state.update(mouse),
            State::PreGame(state) => state.update(mouse),
            State::InGame(state) => state.update(mouse),
            State::GameOver(state) => state.update(mouse),
            State::GameWon(state) => state.update(mouse),
            State::Pause(state) => state.update(mouse),
            State::MainMenu(state) => state.update(mouse),
        }
    }
}

/// The commands that draw the stack from the bottom up, when `colors` are
/// the draw colors in force: those of each screen, one after another. Each
/// screen ends by setting `colors` again, so every screen begins with them.
pub open spec fn drawn_stack(stack: Seq<StateView>, colors: u16) -> Seq<DrawCommand>
    decreases stack.len(),
{
    if stack.len() == 0 {
        Seq::empty()
    } else {
        drawn_stack(stack.drop_last(), colors) + stack.last().drawn(colors)
    }
}

/// A pause rests the game beneath it and gives it back. With the pause
/// overlay on top of a game that has begun and is neither lost nor won, a
/// frame without a left click leaves the whole stack as it is; a left click
/// takes the overlay off and nothing else; and the frame after that, without a
/// click, counts a tick on the game again.
pub proof fn lemma_pause_rests_the_game(
    stack: Seq<StateView>,
    game: InGameView,
    waiting: Mouse,
    click: Mouse,
    idle: Mouse,
)
    requires
        stack.len() >= 1,
        stack.last() == StateView::InGame(game),
        game.active(),
        count_uncovered(game.board.tiles) > 0,
        game.timer.ticks < u64::MAX,
        !waiting.left,
        click.left,
        !idle.left,
        !idle.right,
    ensures
        StateView::Pause.next(waiting).applied(stack) == stack.push(StateView::Pause),
        StateView::Pause.next(click).applied(stack) == stack,
        stack.last().next(idle).applied(stack.drop_last()) == stack.drop_last().push(
            StateView::InGame(
                InGameView {
                    timer: TimerView { ticks: game.timer.ticks + 1, running: true },
                    ..game
                },
            ),
        ),
{
    game.lemma_idle_frame_counts_a_tick(idle);
}

/// The stack of screens. The last one is the active one.
#[derive(Debug)]
pub struct Machine {
    states_stack: Vec<State>,
}

impl View for Machine {
    type V = Seq<StateView>;

    closed spec fn view(&self) -> Seq<StateView> {
        self.states_stack@.map_values(|state: State| state@)
    }
}

impl Machine {
    /// Every screen on the stack is well formed.
    pub open spec fn screens_wf(&self) -> bool {
        forall|i: int| 0 <= i < self@.len() ==> (#[trigger] self@[i]).wf()
    }

    /// The machine's invariant: the stack is not empty, the screen at its
    /// bottom is no overlay, and every screen is well formed. So there is
    /// always an active screen, and beneath an overlay always a screen to
    /// come back to.
    pub open spec fn wf(&self) -> bool {
        &&& self@.len() >= 1
        &&& !self@[0].is_overlay()
        &&& self.screens_wf()
    }

    /// A machine with the initial screen on its stack.
    pub fn new() -> (machine: Machine)
        ensures
            machine@ == seq![StateView::Initial],
            machine.wf(),
    {
        Machine::with_state(State::Initial(InitialState::new()))
    }

    /// A machine with `state`, which is no overlay, on its stack.
    pub fn with_state(state: State) -> (machine: Machine)
        requires
            state@.wf(),
            !state@.is_overlay(),
        ensures
            machine@ == seq![state@],
            machine.wf(),
    {
        let mut states_stack: Vec<State> = Vec::new();
        states_stack.push(state);
        let machine = Machine { states_stack };
        assert(machine@ =~= seq![state@]);
        machine
    }

    /// The number of screens on the stack.
    pub fn depth(&self) -> (depth: usize)
        ensures
            depth == self@.len(),
    {
        self.states_stack.len()
    }

    /// The active screen, if the stack holds one.
    pub fn top(&self) -> (top: Option<&State>)
        ensures
            match top {
                Some(state) => self@.len() > 0 && state@ == self@.last(),
                None => self@.len() == 0,
            },
    {
        if self.states_stack.len() == 0 {
            None
        } else {
            Some(&self.states_stack[self.states_stack.len() - 1])
        }
    }

    /// The screen at `depth` from the bottom of the stack.
    pub fn state(&self, depth: usize) -> (state: &State)
        requires
            depth < self@.len(),
        ensures
            state@ == self@[depth as int],
    {
        &self.states_stack[depth]
    }

    /// Lays `overlay` on top of the active screen, which stays beneath it
    /// and rests until the overlay is gone.
    pub fn push(&mut self, overlay: State)
        requires
            old(self).wf(),
            overlay@.wf(),
        ensures
            final(self).wf(),
            final(self)@ == old(self)@.push(overlay@),
    {
        self.states_stack.push(overlay);
        assert(self@ =~= old(self)@.push(overlay@));
    }

    /// Pauses a running game: if `pressed` is true, that is, the pause
    /// button went down in this frame, and a game is the active screen, the
    /// pause overlay is laid on top of it. Otherwise nothing changes.
    pub fn pause(&mut self, pressed: bool)
        requires
            old(self).wf(),
        ensures
            final(self).wf(),
            final(self)@ == (if pressed && old(self)@.last() is InGame {
                old(self)@.push(StateView::Pause)
            } else {
                old(self)@
            }),
    {
        if pressed {
            let running = match &self.states_stack[self.states_stack.len() - 1] {
                State::InGame(_) => true,
                _ => false,
            };
            if running {
                self.push(State::Pause(PauseState::new()));
            }
        }
    }

    /// The commands that draw every screen on the stack, from the bottom up.
    /// `colors` are the draw colors in force; each screen sets them again
    /// when it is done.
    pub fn draw(&self, colors: u16) -> (commands: Vec<DrawCommand>)
        requires
            self.wf(),
        ensures
            commands@ == drawn_stack(self@, colors),
    {
        let mut commands: Vec<DrawCommand> = Vec::new();
        let mut i: usize = 0;
        while i < self.states_stack.len()
            invariant
                self.wf(),
                i <= self@.len(),
                self@.len() == self.states_stack@.len(),
                commands@ == drawn_stack(self@.subrange(0, i as int), colors),
            decreases self@.len() - i,
        {
            let ghost before = commands@;
            assert(self@[i as int].wf());
            let mut screen = self.states_stack[i].draw(colors);
            commands.append(&mut screen);
            proof {
                let shown = self@.subrange(0, i + 1);
                assert(shown.drop_last() =~= self@.subrange(0, i as int));
                assert(shown.last() == self@[i as int]);
                assert(commands@ =~= before + self@[i as int].drawn(colors));
            }
            i += 1;
        }
        assert(self@.subrange(0, i as int) =~= self@);
        commands
    }

    /// Puts what a transition carries on the stack.
    fn put(&mut self, transition: Transition)
        requires
            old(self).screens_wf(),
            transition@.wf(),
        ensures
            final(self).screens_wf(),
            final(self)@ == transition@.applied(old(self)@),
    {
        let ghost rest = self@;
        match transition {
            Transition::Replace(state) => {
                self.states_stack.push(state);
                assert(self@ =~= rest.push(state@));
            },
            Transition::Push(old_state, state) => {
                // First the screen beneath, then the one on top of it.
                self.states_stack.push(old_state);
                self.states_stack.push(state);
                assert(self@ =~= rest.push(old_state@).push(state@));
            },
            Transition::Pop => {},
        }
    }

    /// Applies a transition to the stack: what it carries goes on top.
    pub fn apply(&mut self, transition: Transition)
        requires
            old(self).wf(),
            transition@.wf(),
        ensures
            final(self).wf(),
            final(self)@ == transition@.applied(old(self)@),
    {
        self.put(transition);
    }

    /// One frame: the active screen is taken off the stack and updated, and
    /// the transition that it answers with is applied. No other screen is
    /// touched. The stack is never left empty: only an overlay answers
    /// with nothing to put back, and an overlay has a screen beneath it.
    pub fn update(&mut self, mouse: &Mouse)
        requires
            old(self).wf(),
        ensures
            final(self).wf(),
            final(self)@.len() >= 1,
            final(self)@ == old(self)@.last().next(*mouse).applied(old(self)@.drop_last()),
    {
        let ghost stack = self@;
        assert(stack.last().wf());
        let state: State = self.states_stack.pop().unwrap();
        assert(self@ =~= stack.drop_last());
        let transition: Transition = state.update(mouse);
        proof {
            if stack.len() == 1 {
                stack.last().lemma_screen_is_replaced(*mouse);
            }
        }
        self.put(transition);
    }

    /// One frame from end to end: the active screen is updated with the
    /// pointer as it was sampled, the whole stack is drawn, and the pointer's
    /// clicks are cleared for the next frame.
    pub fn frame(&mut self, mouse: &mut Mouse, colors: u16) -> (commands: Vec<DrawCommand>)
        requires
            old(self).wf(),
        ensures
            final(self).wf(),
            final(self)@ == old(self)@.last().next(*old(mouse)).applied(old(self)@.drop_last()),
            commands@ == drawn_stack(final(self)@, colors),
            *final(mouse) == (Mouse { left: false, right: false, ..*old(mouse) }),
    {
        self.update(mouse);
        let commands = self.draw(colors);
        mouse.update();
        commands
    }
}

} // verus!
