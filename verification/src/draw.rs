//! What the screens hand to the drawing surface: a list of commands, which
//! the host carries out in order.

use vstd::prelude::*;

verus! {

/// The picture on a tile.
#[derive(Clone, Copy, Debug, PartialEq, Eq, Structural)]
pub enum Sprite {
    /// A covered tile without a flag.
    Covered,
    /// A covered tile with a flag.
    Flag,
    /// An uncovered tile with a mine.
    Mine,
    /// An uncovered tile without a mine, with its digit. The surface leaves
    /// the digit zero blank.
    Digit(u8),
}

/// A fixed line of text.
#[derive(Clone, Copy, Debug, PartialEq, Eq, Structural)]
pub enum Message {
    Title,
    ClickToStart,
    Paused,
    GameOver,
    GameWon,
}

/// One call on the drawing surface. Coordinates are pixels.
#[derive(Clone, Copy, Debug, PartialEq, Eq, Structural)]
pub enum DrawCommand {
    /// Sets the draw colors.
    Colors(u16),
    /// Draws the picture of a tile with its upper left corner at `(x, y)`.
    Tile { sprite: Sprite, x: i32, y: i32 },
    /// Writes the number of mines that are not flagged yet.
    MinesLeft { count: usize, x: i32, y: i32 },
    /// Writes the elapsed time, in ticks.
    Elapsed { ticks: u64, x: i32, y: i32 },
    /// Writes a fixed line.
    Banner { message: Message, x: i32, y: i32 },
}

/// The character for a digit. Above nine there is none: `'?'` stands in.
pub open spec fn digit_char(d: nat) -> char {
    if d == 0 {
        '0'
    } else if d == 1 {
        '1'
    } else if d == 2 {
        '2'
    } else if d == 3 {
        '3'
    } else if d == 4 {
        '4'
    } else if d == 5 {
        '5'
    } else if d == 6 {
        '6'
    } else if d == 7 {
        '7'
    } else if d == 8 {
        '8'
    } else if d == 9 {
        '9'
    } else {
        '?'
    }
}

/// The decimal digits of `n`, the most significant first.
pub open spec fn decimal(n: nat) -> Seq<char>
    decreases n,
{
    if n < 10 {
        seq![digit_char(n)]
    } else {
        decimal(n / 10).push(digit_char(n % 10))
    }
}

/// `text`, filled up on the left with `fill` to `width` characters. A longer
/// text stays as it is.
pub open spec fn padded(text: Seq<char>, width: nat, fill: char) -> Seq<char> {
    if text.len() >= width {
        text
    } else {
        Seq::new((width - text.len()) as nat, |i: int| fill) + text
    }
}

/// What `MinesLeft` writes: the label and the count, with at least two
/// digits.
pub open spec fn mines_left_line(count: nat) -> Seq<char> {
    seq!['M', 'i', 'n', 'e', 's', ':'] + padded(decimal(count), 2, '0')
}

/// What `Elapsed` writes: the label and the ticks, set to the right in three
/// columns.
pub open spec fn elapsed_line(ticks: nat) -> Seq<char> {
    seq!['T', 'i', 'm', 'e', ':'] + padded(decimal(ticks), 3, ' ')
}

impl Message {
    /// The line that the message stands for.
    pub open spec fn line(self) -> Seq<char> {
        match self {
            Message::Title => "MINESWEEPER"@,
            Message::ClickToStart => "Click to start"@,
            Message::Paused => "PAUSED"@,
            Message::GameOver => "GAME OVER!!!"@,
            Message::GameWon => "GAME WON!!!"@,
        }
    }

    /// The line that the message stands for.
    pub fn text(&self) -> (text: &'static str)
        ensures
            text@ == self.line(),
    {
        match self {
            Message::Title => "MINESWEEPER",
            Message::ClickToStart => "Click to start",
            Message::Paused => "PAUSED",
            Message::GameOver => "GAME OVER!!!",
            Message::GameWon => "GAME WON!!!",
        }
    }
}

fn digit(d: u64) -> (c: char)
    requires
        d < 10,
    ensures
        c == digit_char(d as nat),
{
    if d == 0 {
        '0'
    } else if d == 1 {
        '1'
    } else if d == 2 {
        '2'
    } else if d == 3 {
        '3'
    } else if d == 4 {
        '4'
    } else if d == 5 {
        '5'
    } else if d == 6 {
        '6'
    } else if d == 7 {
        '7'
    } else if d == 8 {
        '8'
    } else {
        '9'
    }
}

fn append_decimal(text: &mut Vec<char>, n: u64)
    ensures
        final(text)@ == old(text)@ + decimal(n as nat),
    decreases n,
{
    if n >= 10 {
        append_decimal(text, n / 10);
    }
    text.push(digit(n % 10));
    assert(final(text)@ =~= old(text)@ + decimal(n as nat));
}

/// Writes `n` after `text`, filled up on the left with `fill` to `width`
/// characters.
fn append_padded(text: &mut Vec<char>, n: u64, width: usize, fill: char)
    ensures
        final(text)@ == old(text)@ + padded(decimal(n as nat), width as nat, fill),
{
    let mut digits: Vec<char> = Vec::new();
    append_decimal(&mut digits, n);
    assert(digits@ =~= decimal(n as nat));
    let ghost front = text@;
    let mut used: usize = digits.len();
    while used < width
        invariant
            digits@.len() <= used,
            used < width ==> text@ == front + Seq::new(
                (used - digits@.len()) as nat,
                |i: int| fill,
            ),
            used >= width ==> text@ + digits@ == front + padded(digits@, width as nat, fill),
        decreases width - used,
    {
        text.push(fill);
        used += 1;
        proof {
            let gap = (used - digits@.len()) as nat;
            assert(text@ =~= front + Seq::new(gap, |i: int| fill));
            if used >= width {
                assert(text@ + digits@ =~= front + (Seq::new(gap, |i: int| fill) + digits@));
            }
        }
    }
    text.append(&mut digits);
}

/// The line that `MinesLeft` writes for `count`.
pub fn mines_left_text(count: usize) -> (text: Vec<char>)
    ensures
        text@ == mines_left_line(count as nat),
{
    let mut text: Vec<char> = vec!['M', 'i', 'n', 'e', 's', ':'];
    assert(text@ =~= seq!['M', 'i', 'n', 'e', 's', ':']);
    append_padded(&mut text, count as u64, 2, '0');
    text
}

/// The line that `Elapsed` writes for `ticks`.
pub fn elapsed_text(ticks: u64) -> (text: Vec<char>)
    ensures
        text@ == elapsed_line(ticks as nat),
{
    let mut text: Vec<char> = vec!['T', 'i', 'm', 'e', ':'];
    assert(text@ =~= seq!['T', 'i', 'm', 'e', ':']);
    append_padded(&mut text, ticks, 3, ' ');
    text
}

} // verus!
