//! The mathematical model of the minefield: a rectangle of tiles in row-major
//! order, and the rule by which a reveal spreads over it.

use vstd::prelude::*;
use vstd::arithmetic::div_mod::lemma_fundamental_div_mod;
use vstd::arithmetic::div_mod::lemma_fundamental_div_mod_converse;
use crate::draw::DrawCommand;
use crate::draw::Sprite;
use crate::grid::DIGIT_RADIUS;
use crate::grid::TILE_SIZE;

verus! {

/// One cell of the field. A tile is never both uncovered and flagged.
#[derive(Clone, Copy, Debug, PartialEq, Eq, Structural)]
pub struct Tile {
    pub covered: bool,
    pub flagged: bool,
}

/// What a reveal did to the tile that it was asked for.
#[derive(Clone, Copy, Debug, PartialEq, Eq, Structural)]
pub enum RevealOutcome {
    /// The tile was flagged or already uncovered: nothing changed.
    Ignored,
    /// The tile was uncovered and holds a mine.
    Detonated,
    /// The tile was uncovered and holds no mine.
    Cleared,
}

/// What a `Grid` stands for in contracts.
///
/// `tiles` holds the rows one after another, so the tile at column `x` of row
/// `y` is `tiles[y * width + x]`. `origin` is the pixel at which the first
/// tile is drawn: the band to its left and above it is kept for the counters.
pub struct Board {
    pub width: int,
    pub height: int,
    pub tiles: Seq<Tile>,
    pub digit_radius: int,
    pub origin: (int, int),
    pub seed: u64,
}

/// Whether `(x, y)` is one of the listed mine coordinates.
pub open spec fn is_mine(mines: Seq<(usize, usize)>, x: int, y: int) -> bool {
    exists|i: int| 0 <= i < mines.len() && (#[trigger] mines[i]).0 == x && mines[i].1 == y
}

/// Two distinct coordinates that touch, by an edge or by a corner.
pub open spec fn adjacent(a: (int, int), b: (int, int)) -> bool {
    &&& a != b
    &&& -1 <= a.0 - b.0 <= 1
    &&& -1 <= a.1 - b.1 <= 1
}

/// How many of `tiles` are uncovered.
pub open spec fn count_uncovered(tiles: Seq<Tile>) -> nat
    decreases tiles.len(),
{
    if tiles.len() == 0 {
        0
    } else {
        count_uncovered(tiles.drop_last()) + if tiles.last().covered { 0nat } else { 1nat }
    }
}

/// How many of `tiles` carry a flag.
pub open spec fn count_flagged(tiles: Seq<Tile>) -> nat
    decreases tiles.len(),
{
    if tiles.len() == 0 {
        0
    } else {
        count_flagged(tiles.drop_last()) + if tiles.last().flagged { 1nat } else { 0nat }
    }
}

impl Board {
    /// The dimensions are non-negative, there is one tile per coordinate, and
    /// no uncovered tile carries a flag.
    pub open spec fn wf(self) -> bool {
        &&& 0 <= self.width
        &&& 0 <= self.height
        &&& self.tiles.len() == self.width * self.height
        &&& 0 <= self.origin.0
        &&& 0 <= self.origin.1
        &&& 0 <= self.digit_radius
        &&& forall|i: int|
            0 <= i < self.tiles.len() ==> (#[trigger] self.tiles[i]).covered || !self.tiles[i].flagged
    }

    /// The field can be held and drawn: its tiles can be counted in a
    /// `usize`, and the pixels that it covers have `i32` coordinates.
    pub open spec fn fits(self) -> bool {
        &&& self.width * self.height <= usize::MAX
        &&& self.origin.0 + self.width * TILE_SIZE <= i32::MAX
        &&& self.origin.1 + self.height * TILE_SIZE <= i32::MAX
    }

    pub open spec fn in_bounds(self, x: int, y: int) -> bool {
        0 <= x < self.width && 0 <= y < self.height
    }

    /// The place of `(x, y)` in `tiles`.
    pub open spec fn index(self, x: int, y: int) -> int {
        y * self.width + x
    }

    pub open spec fn tile(self, x: int, y: int) -> Tile {
        self.tiles[self.index(x, y)]
    }

    /// The column of the tile at place `i`.
    pub open spec fn column(self, i: int) -> int {
        i % self.width
    }

    /// The row of the tile at place `i`.
    pub open spec fn row(self, i: int) -> int {
        i / self.width
    }

    /// The field as `from_random_seed` makes it: every tile covered, none
    /// flagged.
    pub open spec fn fresh(seed: u64, width: int, height: int, origin: (int, int)) -> Board {
        Board {
            width,
            height,
            tiles: Seq::new((width * height) as nat, |i: int| Tile { covered: true, flagged: false }),
            digit_radius: DIGIT_RADIUS as int,
            origin,
            seed,
        }
    }

    /// The tile under the pixel `(px, py)`, if there is one.
    pub open spec fn tile_under(self, px: int, py: int) -> Option<(int, int)> {
        let x = (px - self.origin.0) / (TILE_SIZE as int);
        let y = (py - self.origin.1) / (TILE_SIZE as int);
        if px >= self.origin.0 && py >= self.origin.1 && self.in_bounds(x, y) {
            Some((x, y))
        } else {
            None
        }
    }

    /// A tile that a reveal may uncover: inside the field, covered, unflagged.
    pub open spec fn revealable(self, x: int, y: int) -> bool {
        &&& self.in_bounds(x, y)
        &&& self.tile(x, y).covered
        &&& !self.tile(x, y).flagged
    }

    /// 1 if `(x, y)` lies inside the field and holds a mine, else 0.
    pub open spec fn mine_at(self, mines: Seq<(usize, usize)>, x: int, y: int) -> int {
        if self.in_bounds(x, y) && is_mine(mines, x, y) {
            1
        } else {
            0
        }
    }

    /// The number of mines on the up to eight tiles around `(x, y)`.
    pub open spec fn neighbouring_mines(self, mines: Seq<(usize, usize)>, x: int, y: int) -> int {
        self.mine_at(mines, x - 1, y - 1) + self.mine_at(mines, x, y - 1) + self.mine_at(
            mines,
            x + 1,
            y - 1,
        ) + self.mine_at(mines, x - 1, y) + self.mine_at(mines, x + 1, y) + self.mine_at(
            mines,
            x - 1,
            y + 1,
        ) + self.mine_at(mines, x, y + 1) + self.mine_at(mines, x + 1, y + 1)
    }

    /// The digit shown on `(x, y)`: its neighbouring mines, capped at the
    /// digit radius.
    pub open spec fn adjacent_mines(self, mines: Seq<(usize, usize)>, x: int, y: int) -> int {
        let n = self.neighbouring_mines(mines, x, y);
        if n <= self.digit_radius {
            n
        } else {
            self.digit_radius
        }
    }

    /// A tile from which a reveal spreads on: no mine, and the digit zero.
    pub open spec fn spreads(self, mines: Seq<(usize, usize)>, x: int, y: int) -> bool {
        &&& self.in_bounds(x, y)
        &&& !is_mine(mines, x, y)
        &&& self.adjacent_mines(mines, x, y) == 0
    }

    /// A way that a reveal can take: every tile on it is revealable, and each
    /// but the last spreads to the next, which touches it.
    pub open spec fn is_flood_path(self, mines: Seq<(usize, usize)>, path: Seq<(int, int)>) -> bool {
        &&& path.len() >= 1
        &&& forall|i: int|
            0 <= i < path.len() ==> self.revealable((#[trigger] path[i]).0, path[i].1)
        &&& forall|i: int|
            0 <= i < path.len() - 1 ==> self.spreads(mines, (#[trigger] path[i]).0, path[i].1)
                && adjacent(path[i], path[i + 1])
    }

    /// Whether a reveal of `(sx, sy)` uncovers `(x, y)`.
    pub open spec fn floods(
        self,
        mines: Seq<(usize, usize)>,
        sx: int,
        sy: int,
        x: int,
        y: int,
    ) -> bool {
        exists|path: Seq<(int, int)>|
            #[trigger] self.is_flood_path(mines, path) && path[0] == (sx, sy) && path.last() == (
                x,
                y,
            )
    }

    /// The board after a reveal of `(sx, sy)`: what the reveal floods is
    /// uncovered, and nothing else changes.
    pub open spec fn revealed(self, mines: Seq<(usize, usize)>, sx: int, sy: int) -> Board {
        Board {
            tiles: Seq::new(
                self.tiles.len(),
                |i: int|
                    Tile {
                        covered: self.tiles[i].covered && !self.floods(
                            mines,
                            sx,
                            sy,
                            self.column(i),
                            self.row(i),
                        ),
                        flagged: self.tiles[i].flagged,
                    },
            ),
            ..self
        }
    }

    /// What a reveal of `(x, y)` reports.
    pub open spec fn outcome(self, mines: Seq<(usize, usize)>, x: int, y: int) -> RevealOutcome {
        if !self.revealable(x, y) {
            RevealOutcome::Ignored
        } else if is_mine(mines, x, y) {
            RevealOutcome::Detonated
        } else {
            RevealOutcome::Cleared
        }
    }

    /// The board after the flag of `(x, y)` was toggled: a covered tile gains
    /// or loses its flag, an uncovered one stays as it is.
    pub open spec fn toggled(self, x: int, y: int) -> Board {
        if self.tile(x, y).covered {
            Board {
                tiles: self.tiles.update(
                    self.index(x, y),
                    Tile { covered: true, flagged: !self.tile(x, y).flagged },
                ),
                ..self
            }
        } else {
            self
        }
    }

    /// The board after a left click on the pixel `(px, py)`.
    pub open spec fn left_clicked(self, mines: Seq<(usize, usize)>, px: int, py: int) -> Board {
        match self.tile_under(px, py) {
            Some((x, y)) => self.revealed(mines, x, y),
            None => self,
        }
    }

    /// The board after a right click on the pixel `(px, py)`.
    pub open spec fn right_clicked(self, px: int, py: int) -> Board {
        match self.tile_under(px, py) {
            Some((x, y)) => self.toggled(x, y),
            None => self,
        }
    }

    /// Whether some listed mine lies under an uncovered tile.
    pub open spec fn stepped_on_mine(self, mines: Seq<(usize, usize)>) -> bool {
        exists|i: int|
            0 <= i < mines.len() && self.in_bounds((#[trigger] mines[i]).0 as int, mines[i].1 as int)
                && !self.tile(mines[i].0 as int, mines[i].1 as int).covered
    }

    /// The picture on `(x, y)`.
    pub open spec fn sprite(self, mines: Seq<(usize, usize)>, x: int, y: int) -> Sprite {
        if self.tile(x, y).covered {
            if self.tile(x, y).flagged {
                Sprite::Flag
            } else {
                Sprite::Covered
            }
        } else if is_mine(mines, x, y) {
            Sprite::Mine
        } else {
            Sprite::Digit(self.adjacent_mines(mines, x, y) as u8)
        }
    }

    /// The command that draws the tile at place `i`.
    pub open spec fn tile_command(self, mines: Seq<(usize, usize)>, i: int) -> DrawCommand {
        DrawCommand::Tile {
            sprite: self.sprite(mines, self.column(i), self.row(i)),
            x: (self.origin.0 + self.column(i) * TILE_SIZE) as i32,
            y: (self.origin.1 + self.row(i) * TILE_SIZE) as i32,
        }
    }

    /// The commands that draw the field: one for each tile, row by row.
    pub open spec fn drawn(self, mines: Seq<(usize, usize)>) -> Seq<DrawCommand> {
        Seq::new(self.tiles.len(), |i: int| self.tile_command(mines, i))
    }

    /// `(x, y)` has its place among the tiles.
    pub proof fn lemma_index_in_range(self, x: int, y: int)
        requires
            self.wf(),
            self.in_bounds(x, y),
        ensures
            0 <= self.index(x, y) < self.tiles.len(),
            self.column(self.index(x, y)) == x,
            self.row(self.index(x, y)) == y,
    {
        assert(y * self.width + x < self.width * self.height) by (nonlinear_arith)
            requires
                0 <= x < self.width,
                0 <= y < self.height,
        ;
        assert(0 <= y * self.width) by (nonlinear_arith)
            requires
                0 <= y,
                0 <= self.width,
        ;
        lemma_fundamental_div_mod_converse(self.index(x, y), self.width, y, x);
    }

    /// Every place among the tiles is that of a coordinate inside the field.
    pub proof fn lemma_place_has_coordinate(self, i: int)
        requires
            self.wf(),
            0 <= i < self.tiles.len(),
        ensures
            self.in_bounds(self.column(i), self.row(i)),
            self.index(self.column(i), self.row(i)) == i,
            self.column(i) <= i,
            self.row(i) <= i,
    {
        assert(self.width > 0) by (nonlinear_arith)
            requires
                0 <= i < self.width * self.height,
                0 <= self.width,
        ;
        lemma_fundamental_div_mod(i, self.width);
        let q = i / self.width;
        let r = i % self.width;
        assert(0 <= r < self.width);
        assert(self.width * q == q * self.width) by (nonlinear_arith);
        assert(0 <= q < self.height && q <= i) by (nonlinear_arith)
            requires
                0 <= r < self.width,
                0 <= i < self.width * self.height,
                i == q * self.width + r,
        ;
    }
}

/// No tile is uncovered exactly when the count of uncovered tiles is zero.
pub proof fn lemma_count_uncovered_zero(tiles: Seq<Tile>)
    ensures
        (count_uncovered(tiles) > 0) == exists|i: int|
            0 <= i < tiles.len() && !(#[trigger] tiles[i]).covered,
    decreases tiles.len(),
{
    if tiles.len() > 0 {
        let front = tiles.drop_last();
        lemma_count_uncovered_zero(front);
        if count_uncovered(tiles) > 0 {
            if !tiles.last().covered {
                assert(!tiles[tiles.len() - 1].covered);
            } else {
                let i = choose|i: int| 0 <= i < front.len() && !(#[trigger] front[i]).covered;
                assert(!tiles[i].covered);
            }
        } else {
            assert forall|i: int| 0 <= i < tiles.len() implies (#[trigger] tiles[i]).covered by {
                if i < front.len() {
                    assert(front[i].covered);
                }
            }
        }
    }
}

/// The count of uncovered tiles is at most the number of tiles.
pub proof fn lemma_count_uncovered_bound(tiles: Seq<Tile>)
    ensures
        count_uncovered(tiles) <= tiles.len(),
    decreases tiles.len(),
{
    if tiles.len() > 0 {
        lemma_count_uncovered_bound(tiles.drop_last());
    }
}

/// Replacing one tile changes the two counts by what that tile adds to them.
pub proof fn lemma_count_update(tiles: Seq<Tile>, i: int, t: Tile)
    requires
        0 <= i < tiles.len(),
    ensures
        count_uncovered(tiles.update(i, t)) == count_uncovered(tiles) - (if tiles[i].covered {
            0int
        } else {
            1int
        }) + (if t.covered {
            0int
        } else {
            1int
        }),
        count_flagged(tiles.update(i, t)) == count_flagged(tiles) - (if tiles[i].flagged {
            1int
        } else {
            0int
        }) + (if t.flagged {
            1int
        } else {
            0int
        }),
    decreases tiles.len(),
{
    let after = tiles.update(i, t);
    if i == tiles.len() - 1 {
        assert(after.drop_last() =~= tiles.drop_last());
    } else {
        lemma_count_update(tiles.drop_last(), i, t);
        assert(after.drop_last() =~= tiles.drop_last().update(i, t));
    }
}

/// Every tile is uncovered exactly when the count of uncovered tiles is the
/// number of tiles.
pub proof fn lemma_count_uncovered_full(tiles: Seq<Tile>)
    ensures
        (count_uncovered(tiles) == tiles.len()) == forall|i: int|
            0 <= i < tiles.len() ==> !(#[trigger] tiles[i]).covered,
    decreases tiles.len(),
{
    if tiles.len() > 0 {
        let front = tiles.drop_last();
        lemma_count_uncovered_full(front);
        lemma_count_uncovered_bound(front);
        if count_uncovered(tiles) == tiles.len() {
            assert forall|i: int| 0 <= i < tiles.len() implies !(#[trigger] tiles[i]).covered by {
                if i < front.len() {
                    assert(!front[i].covered);
                }
            }
        } else if !tiles.last().covered {
            let i = choose|i: int| 0 <= i < front.len() && (#[trigger] front[i]).covered;
            assert(tiles[i].covered);
        } else {
            assert(tiles[tiles.len() - 1].covered);
        }
    }
}

} // verus!
