//! The minefield itself: the tiles, and the operations that a click performs
//! on them.
//!
//! The operations that take a tile coordinate are defined for coordinates
//! inside the field only; `in_bounds` tests that, and the click handlers do so
//! before they act.

use vstd::prelude::*;
use crate::board::Board;
use crate::board::Tile;
use crate::board::count_flagged;
use crate::board::count_uncovered;
use crate::board::lemma_count_uncovered_zero;
use crate::draw::DrawCommand;
use crate::draw::Sprite;
use crate::mines::contains_mine;

verus! {

/// The side of a tile, in pixels.
pub const TILE_SIZE: i32 = 10;

/// The cap on the digit of a tile that a grid starts with.
pub const DIGIT_RADIUS: u8 = 10;

/// A rectangle of tiles. The mines are no part of it: the operations that
/// depend on them take the mine set as an argument.
#[derive(Clone, Debug)]
pub struct Grid {
    width: usize,
    height: usize,
    tiles: Vec<Tile>,
    digit_radius: u8,
    origin_x: i32,
    origin_y: i32,
    seed: u64,
}

impl View for Grid {
    type V = Board;

    closed spec fn view(&self) -> Board {
        Board {
            width: self.width as int,
            height: self.height as int,
            tiles: self.tiles@,
            digit_radius: self.digit_radius as int,
            origin: (self.origin_x as int, self.origin_y as int),
            seed: self.seed,
        }
    }
}

impl Grid {
    /// The grid's invariant: that of its board, within the machine's limits.
    pub open spec fn wf(&self) -> bool {
        self@.wf() && self@.fits()
    }

    /// A field of `width` by `height` covered, unflagged tiles whose first
    /// tile is drawn at the pixel `exclusion_zone`: the band to the left of
    /// and above that pixel is kept free of tiles, and so of mines. The seed
    /// is kept for the placement of the mines, which waits for the first
    /// reveal.
    pub fn from_random_seed(
        seed: u64,
        width: usize,
        height: usize,
        exclusion_zone: (i32, i32),
    ) -> (grid: Grid)
        requires
            width * height <= usize::MAX,
            0 <= exclusion_zone.0,
            0 <= exclusion_zone.1,
            exclusion_zone.0 + width * TILE_SIZE <= i32::MAX,
            exclusion_zone.1 + height * TILE_SIZE <= i32::MAX,
        ensures
            grid.wf(),
            grid@ == Board::fresh(
                seed,
                width as int,
                height as int,
                (exclusion_zone.0 as int, exclusion_zone.1 as int),
            ),
            grid@.tiles.len() == width * height,
            forall|i: int|
                0 <= i < grid@.tiles.len() ==> (#[trigger] grid@.tiles[i]).covered
                    && !grid@.tiles[i].flagged,
            forall|x: int, y: int|
                grid@.in_bounds(x, y) ==> #[trigger] grid@.tile(x, y) == (Tile {
                    covered: true,
                    flagged: false,
                }),
    {
        let total: usize = width * height;
        let mut tiles: Vec<Tile> = Vec::new();
        let mut i: usize = 0;
        while i < total
            invariant
                i <= total,
                tiles@.len() == i,
                forall|j: int| 0 <= j < i ==> tiles@[j] == (Tile { covered: true, flagged: false }),
            decreases total - i,
        {
            tiles.push(Tile { covered: true, flagged: false });
            i += 1;
        }
        let grid = Grid {
            width,
            height,
            tiles,
            digit_radius: DIGIT_RADIUS,
            origin_x: exclusion_zone.0,
            origin_y: exclusion_zone.1,
            seed,
        };
        assert(grid@.tiles =~= Board::fresh(
            seed,
            width as int,
            height as int,
            (exclusion_zone.0 as int, exclusion_zone.1 as int),
        ).tiles);
        assert forall|x: int, y: int| grid@.in_bounds(x, y) implies #[trigger] grid@.tile(x, y) == (
        Tile { covered: true, flagged: false }) by {
            grid@.lemma_index_in_range(x, y);
        }
        grid
    }

    /// The same grid with another cap on the digits.
    pub fn with_digit_radius(self, digit_radius: u8) -> (grid: Grid)
        requires
            self.wf(),
        ensures
            grid.wf(),
            grid@ == (Board { digit_radius: digit_radius as int, ..self@ }),
    {
        Grid { digit_radius, ..self }
    }

    pub fn width(&self) -> (w: usize)
        ensures
            w == self@.width,
    {
        self.width
    }

    pub fn height(&self) -> (h: usize)
        ensures
            h == self@.height,
    {
        self.height
    }

    pub fn digit_radius(&self) -> (n: u8)
        ensures
            n == self@.digit_radius,
    {
        self.digit_radius
    }

    pub fn seed(&self) -> (s: u64)
        ensures
            s == self@.seed,
    {
        self.seed
    }

    /// The pixel at which the first tile is drawn.
    pub fn origin(&self) -> (p: (i32, i32))
        ensures
            p.0 == self@.origin.0,
            p.1 == self@.origin.1,
    {
        (self.origin_x, self.origin_y)
    }

    pub fn in_bounds(&self, x: usize, y: usize) -> (inside: bool)
        ensures
            inside == self@.in_bounds(x as int, y as int),
    {
        x < self.width && y < self.height
    }

    /// The place of `(x, y)` among the tiles.
    pub(crate) fn place(&self, x: usize, y: usize) -> (i: usize)
        requires
            self.wf(),
            self@.in_bounds(x as int, y as int),
        ensures
            i == self@.index(x as int, y as int),
            i < self@.tiles.len(),
    {
        proof {
            self@.lemma_index_in_range(x as int, y as int);
            assert(0 <= y * self.width) by (nonlinear_arith)
                requires
                    0 <= y,
                    0 <= self.width,
            ;
        }
        y * self.width + x
    }

    /// Uncovers the tile at place `i` and takes its flag away.
    pub(crate) fn clear(&mut self, i: usize)
        requires
            old(self).wf(),
            i < old(self)@.tiles.len(),
        ensures
            final(self).wf(),
            final(self)@ == (Board {
                tiles: old(self)@.tiles.update(i as int, Tile { covered: false, flagged: false }),
                ..old(self)@
            }),
    {
        self.tiles.set(i, Tile { covered: false, flagged: false });
    }

    /// The tile at `(x, y)`.
    pub fn tile(&self, x: usize, y: usize) -> (t: Tile)
        requires
            self.wf(),
            self@.in_bounds(x as int, y as int),
        ensures
            t == self@.tile(x as int, y as int),
    {
        let i = self.place(x, y);
        self.tiles[i]
    }

    /// The tile under the pixel `(px, py)`, if there is one.
    pub fn tile_under(&self, px: i32, py: i32) -> (hit: Option<(usize, usize)>)
        requires
            self.wf(),
        ensures
            match hit {
                Some((x, y)) => self@.tile_under(px as int, py as int) == Some((x as int, y as int)),
                None => self@.tile_under(px as int, py as int).is_none(),
            },
    {
        if px < self.origin_x || py < self.origin_y {
            return None;
        }
        let x = ((px - self.origin_x) / TILE_SIZE) as usize;
        let y = ((py - self.origin_y) / TILE_SIZE) as usize;
        if x < self.width && y < self.height {
            Some((x, y))
        } else {
            None
        }
    }

    /// Flags a covered tile, or takes its flag away. An uncovered tile stays
    /// as it is.
    pub fn toggle_flag(&mut self, x: usize, y: usize)
        requires
            old(self).wf(),
            old(self)@.in_bounds(x as int, y as int),
        ensures
            final(self).wf(),
            final(self)@ == old(self)@.toggled(x as int, y as int),
            !old(self)@.tile(x as int, y as int).covered ==> final(self)@ == old(self)@,
    {
        let i = self.place(x, y);
        let t = self.tiles[i];
        if t.covered {
            self.tiles.set(i, Tile { covered: true, flagged: !t.flagged });
        }
    }

    /// The number of uncovered tiles.
    pub fn count_uncovered_tiles(&self) -> (n: usize)
        ensures
            n == count_uncovered(self@.tiles),
    {
        let mut n: usize = 0;
        let mut i: usize = 0;
        while i < self.tiles.len()
            invariant
                i <= self.tiles@.len(),
                n <= i,
                n == count_uncovered(self.tiles@.subrange(0, i as int)),
            decreases self.tiles@.len() - i,
        {
            assert(self.tiles@.subrange(0, i + 1).drop_last() =~= self.tiles@.subrange(0, i as int));
            if !self.tiles[i].covered {
                n += 1;
            }
            i += 1;
        }
        assert(self.tiles@.subrange(0, i as int) =~= self.tiles@);
        n
    }

    /// The number of flagged tiles.
    pub fn count_flagged_tiles(&self) -> (n: usize)
        ensures
            n == count_flagged(self@.tiles),
    {
        let mut n: usize = 0;
        let mut i: usize = 0;
        while i < self.tiles.len()
            invariant
                i <= self.tiles@.len(),
                n <= i,
                n == count_flagged(self.tiles@.subrange(0, i as int)),
            decreases self.tiles@.len() - i,
        {
            assert(self.tiles@.subrange(0, i + 1).drop_last() =~= self.tiles@.subrange(0, i as int));
            if self.tiles[i].flagged {
                n += 1;
            }
            i += 1;
        }
        assert(self.tiles@.subrange(0, i as int) =~= self.tiles@);
        n
    }

    /// Whether a tile has been uncovered yet.
    pub fn has_started(&self) -> (started: bool)
        ensures
            started == (count_uncovered(self@.tiles) > 0),
            started == exists|i: int| 0 <= i < self@.tiles.len() && !(#[trigger] self@.tiles[i]).covered,
    {
        proof {
            lemma_count_uncovered_zero(self@.tiles);
        }
        self.count_uncovered_tiles() > 0
    }

    /// Whether one of the mines lies under an uncovered tile. The tiles are
    /// looked at anew on every call.
    pub fn has_stepped_on_mine(&self, mines: &Vec<(usize, usize)>) -> (stepped: bool)
        requires
            self.wf(),
        ensures
            stepped == self@.stepped_on_mine(mines@),
    {
        let mut i: usize = 0;
        while i < mines.len()
            invariant
                self.wf(),
                i <= mines.len(),
                forall|j: int|
                    0 <= j < i ==> !(self@.in_bounds((#[trigger] mines@[j]).0 as int, mines@[j].1 as int)
                        && !self@.tile(mines@[j].0 as int, mines@[j].1 as int).covered),
            decreases mines.len() - i,
        {
            let (x, y) = mines[i];
            if self.in_bounds(x, y) {
                if !self.tile(x, y).covered {
                    return true;
                }
            }
            i += 1;
        }
        false
    }

    /// The tile at the offset `(dx, dy)` from `(x, y)`, if it lies inside the
    /// field.
    pub(crate) fn neighbour(&self, x: usize, y: usize, dx: i8, dy: i8) -> (n: Option<(usize, usize)>)
        requires
            self@.in_bounds(x as int, y as int),
            -1 <= dx <= 1,
            -1 <= dy <= 1,
        ensures
            match n {
                Some((nx, ny)) => nx == x + dx && ny == y + dy && self@.in_bounds(
                    nx as int,
                    ny as int,
                ),
                None => !self@.in_bounds(x + dx, y + dy),
            },
    {
        if (dx < 0 && x == 0) || (dy < 0 && y == 0) {
            return None;
        }
        let nx: usize = if dx < 0 {
            x - 1
        } else if dx > 0 {
            x + 1
        } else {
            x
        };
        let ny: usize = if dy < 0 {
            y - 1
        } else if dy > 0 {
            y + 1
        } else {
            y
        };
        if nx < self.width && ny < self.height {
            Some((nx, ny))
        } else {
            None
        }
    }

    /// 1 if the tile at the offset `(dx, dy)` from `(x, y)` holds a mine, 0 if
    /// it holds none or lies outside the field.
    fn mine_near(&self, mines: &Vec<(usize, usize)>, x: usize, y: usize, dx: i8, dy: i8) -> (n: u8)
        requires
            self@.in_bounds(x as int, y as int),
            -1 <= dx <= 1,
            -1 <= dy <= 1,
        ensures
            n == self@.mine_at(mines@, x + dx, y + dy),
    {
        match self.neighbour(x, y, dx, dy) {
            Some((nx, ny)) => if contains_mine(mines, nx, ny) {
                1
            } else {
                0
            },
            None => 0,
        }
    }

    /// The digit of `(x, y)`: the number of mines on the up to eight tiles
    /// around it, capped at the digit radius.
    pub fn adjacent_mine_count(&self, x: usize, y: usize, mines: &Vec<(usize, usize)>) -> (n: u8)
        requires
            self@.in_bounds(x as int, y as int),
        ensures
            n == self@.adjacent_mines(mines@, x as int, y as int),
    {
        let above: u8 = self.mine_near(mines, x, y, -1, -1) + self.mine_near(mines, x, y, 0, -1)
            + self.mine_near(mines, x, y, 1, -1);
        let beside: u8 = self.mine_near(mines, x, y, -1, 0) + self.mine_near(mines, x, y, 1, 0);
        let below: u8 = self.mine_near(mines, x, y, -1, 1) + self.mine_near(mines, x, y, 0, 1)
            + self.mine_near(mines, x, y, 1, 1);
        let n: u8 = above + beside + below;
        if n <= self.digit_radius {
            n
        } else {
            self.digit_radius
        }
    }

    /// A left click on the pixel `(px, py)`: reveals the tile under it. A
    /// click beside the field does nothing.
    pub fn handle_left_click(&mut self, px: i32, py: i32, mines: &Vec<(usize, usize)>)
        requires
            old(self).wf(),
        ensures
            final(self).wf(),
            final(self)@ == old(self)@.left_clicked(mines@, px as int, py as int),
            old(self)@.tile_under(px as int, py as int).is_none() ==> final(self)@ == old(self)@,
    {
        match self.tile_under(px, py) {
            Some((x, y)) => {
                self.reveal_tile(x, y, mines);
            },
            None => {},
        }
    }

    /// A right click on the pixel `(px, py)`: toggles the flag of the tile
    /// under it. A click beside the field does nothing.
    pub fn handle_right_click(&mut self, px: i32, py: i32)
        requires
            old(self).wf(),
        ensures
            final(self).wf(),
            final(self)@ == old(self)@.right_clicked(px as int, py as int),
            old(self)@.tile_under(px as int, py as int).is_none() ==> final(self)@ == old(self)@,
    {
        match self.tile_under(px, py) {
            Some((x, y)) => {
                self.toggle_flag(x, y);
            },
            None => {},
        }
    }

    /// The picture on `(x, y)`.
    pub fn sprite(&self, x: usize, y: usize, mines: &Vec<(usize, usize)>) -> (sprite: Sprite)
        requires
            self.wf(),
            self@.in_bounds(x as int, y as int),
        ensures
            sprite == self@.sprite(mines@, x as int, y as int),
    {
        let t = self.tile(x, y);
        if t.covered {
            if t.flagged {
                Sprite::Flag
            } else {
                Sprite::Covered
            }
        } else if contains_mine(mines, x, y) {
            Sprite::Mine
        } else {
            Sprite::Digit(self.adjacent_mine_count(x, y, mines))
        }
    }

    /// The commands that draw the field: one for each tile, row by row, from
    /// the upper left corner.
    pub fn draw(&self, mines: &Vec<(usize, usize)>) -> (commands: Vec<DrawCommand>)
        requires
            self.wf(),
        ensures
            commands@ == self@.drawn(mines@),
    {
        let mut commands: Vec<DrawCommand> = Vec::new();
        let mut i: usize = 0;
        while i < self.tiles.len()
            invariant
                self.wf(),
                i <= self.tiles@.len(),
                commands@.len() == i,
                forall|j: int| 0 <= j < i ==> commands@[j] == self@.tile_command(mines@, j),
            decreases self.tiles@.len() - i,
        {
            proof {
                self@.lemma_place_has_coordinate(i as int);
            }
            let x = i % self.width;
            let y = i / self.width;
            let sprite = self.sprite(x, y, mines);
            let px: i32 = self.origin_x + (x as i32) * TILE_SIZE;
            let py: i32 = self.origin_y + (y as i32) * TILE_SIZE;
            commands.push(DrawCommand::Tile { sprite, x: px, y: py });
            i += 1;
        }
        assert(commands@ =~= self@.drawn(mines@));
        commands
    }
}

} // verus!
