//! What holds of reveals and flags on every board.

use vstd::prelude::*;
use crate::board::Board;
use crate::board::Tile;
use crate::board::adjacent;
use crate::board::count_uncovered;
use crate::board::is_mine;
use crate::board::lemma_count_uncovered_full;
use crate::board::lemma_count_update;

verus! {

impl Board {
    /// A reveal uncovers the tile that it starts from, if that tile is
    /// revealable.
    pub proof fn lemma_flood_start(self, mines: Seq<(usize, usize)>, sx: int, sy: int)
        requires
            self.revealable(sx, sy),
        ensures
            self.floods(mines, sx, sy, sx, sy),
    {
        let path = seq![(sx, sy)];
        assert(self.is_flood_path(mines, path));
        assert(path[0] == (sx, sy) && path.last() == (sx, sy));
    }

    /// A reveal goes on from a flooded tile that spreads to every revealable
    /// tile that touches it.
    pub proof fn lemma_flood_step(
        self,
        mines: Seq<(usize, usize)>,
        sx: int,
        sy: int,
        px: int,
        py: int,
        x: int,
        y: int,
    )
        requires
            self.floods(mines, sx, sy, px, py),
            self.spreads(mines, px, py),
            adjacent((px, py), (x, y)),
            self.revealable(x, y),
        ensures
            self.floods(mines, sx, sy, x, y),
    {
        let path = choose|path: Seq<(int, int)>|
            #[trigger] self.is_flood_path(mines, path) && path[0] == (sx, sy) && path.last() == (
                px,
                py,
            );
        let longer = path.push((x, y));
        assert forall|i: int| 0 <= i < longer.len() implies self.revealable(
            (#[trigger] longer[i]).0,
            longer[i].1,
        ) by {
            if i < path.len() {
                assert(longer[i] == path[i]);
            }
        }
        assert forall|i: int| 0 <= i < longer.len() - 1 implies self.spreads(
            mines,
            (#[trigger] longer[i]).0,
            longer[i].1,
        ) && adjacent(longer[i], longer[i + 1]) by {
            assert(longer[i] == path[i]);
            if i < path.len() - 1 {
                assert(longer[i + 1] == path[i + 1]);
            }
        }
        assert(self.is_flood_path(mines, longer));
        assert(longer[0] == (sx, sy) && longer.last() == (x, y));
    }

    /// A reveal reaches a tile other than its start only through a flooded
    /// tile that touches it and spreads; the tile itself was revealable.
    pub proof fn lemma_flood_came_from(
        self,
        mines: Seq<(usize, usize)>,
        sx: int,
        sy: int,
        x: int,
        y: int,
    )
        requires
            self.floods(mines, sx, sy, x, y),
        ensures
            self.revealable(sx, sy),
            self.revealable(x, y),
            (x, y) != (sx, sy) ==> exists|p: (int, int)|
                #[trigger] adjacent(p, (x, y)) && self.floods(mines, sx, sy, p.0, p.1)
                    && self.spreads(mines, p.0, p.1),
    {
        let path = choose|path: Seq<(int, int)>|
            #[trigger] self.is_flood_path(mines, path) && path[0] == (sx, sy) && path.last() == (
                x,
                y,
            );
        assert(self.revealable(path[0].0, path[0].1));
        assert(self.revealable(path[path.len() - 1].0, path[path.len() - 1].1));
        if (x, y) != (sx, sy) {
            let front = path.drop_last();
            let p = front.last();
            assert(path.len() >= 2);
            assert forall|i: int| 0 <= i < front.len() implies self.revealable(
                (#[trigger] front[i]).0,
                front[i].1,
            ) by {
                assert(front[i] == path[i]);
            }
            assert forall|i: int| 0 <= i < front.len() - 1 implies self.spreads(
                mines,
                (#[trigger] front[i]).0,
                front[i].1,
            ) && adjacent(front[i], front[i + 1]) by {
                assert(front[i] == path[i]);
                assert(front[i + 1] == path[i + 1]);
            }
            assert(self.is_flood_path(mines, front));
            assert(front[0] == (sx, sy) && front.last() == p);
            assert(p == path[path.len() - 2]);
            assert(self.spreads(mines, path[path.len() - 2].0, path[path.len() - 2].1) && adjacent(
                path[path.len() - 2],
                path[path.len() - 2 + 1],
            ));
            assert(adjacent(p, (x, y)) && self.floods(mines, sx, sy, p.0, p.1) && self.spreads(
                mines,
                p.0,
                p.1,
            ));
        }
    }

    /// The edge of what a reveal uncovers: a flooded tile beside which a
    /// revealable tile is left is a tile from which the reveal does not
    /// spread, so it holds a mine or a digit above zero.
    pub proof fn lemma_flood_boundary(
        self,
        mines: Seq<(usize, usize)>,
        sx: int,
        sy: int,
        x: int,
        y: int,
        nx: int,
        ny: int,
    )
        requires
            self.wf(),
            self.floods(mines, sx, sy, x, y),
            adjacent((x, y), (nx, ny)),
            self.revealed(mines, sx, sy).revealable(nx, ny),
        ensures
            is_mine(mines, x, y) || self.adjacent_mines(mines, x, y) > 0,
    {
        self.lemma_revealed_tile(mines, sx, sy, nx, ny);
        self.lemma_flood_came_from(mines, sx, sy, x, y);
        if self.spreads(mines, x, y) {
            self.lemma_flood_step(mines, sx, sy, x, y, nx, ny);
        }
    }

    /// Beside a tile from which a reveal spreads there is no mine, if the
    /// digits are not capped at zero.
    pub proof fn lemma_no_mine_beside_zero(
        self,
        mines: Seq<(usize, usize)>,
        px: int,
        py: int,
        x: int,
        y: int,
    )
        requires
            self.digit_radius >= 1,
            self.spreads(mines, px, py),
            adjacent((px, py), (x, y)),
            self.in_bounds(x, y),
        ensures
            !is_mine(mines, x, y),
    {
        let dx = x - px;
        let dy = y - py;
        assert(x == px + dx && y == py + dy);
        assert(self.mine_at(mines, px - 1, py - 1) >= 0 && self.mine_at(mines, px, py - 1) >= 0
            && self.mine_at(mines, px + 1, py - 1) >= 0 && self.mine_at(mines, px - 1, py) >= 0
            && self.mine_at(mines, px + 1, py) >= 0 && self.mine_at(mines, px - 1, py + 1) >= 0
            && self.mine_at(mines, px, py + 1) >= 0 && self.mine_at(mines, px + 1, py + 1) >= 0);
        assert(self.neighbouring_mines(mines, px, py) == 0);
        if dx == -1 {
            if dy == -1 {
                assert(self.mine_at(mines, px - 1, py - 1) == 0);
            } else if dy == 0 {
                assert(self.mine_at(mines, px - 1, py) == 0);
            } else {
                assert(self.mine_at(mines, px - 1, py + 1) == 0);
            }
        } else if dx == 0 {
            if dy == -1 {
                assert(self.mine_at(mines, px, py - 1) == 0);
            } else {
                assert(self.mine_at(mines, px, py + 1) == 0);
            }
        } else {
            if dy == -1 {
                assert(self.mine_at(mines, px + 1, py - 1) == 0);
            } else if dy == 0 {
                assert(self.mine_at(mines, px + 1, py) == 0);
            } else {
                assert(self.mine_at(mines, px + 1, py + 1) == 0);
            }
        }
    }

    /// A reveal that starts beside the mines stays beside them: it uncovers
    /// no mine, if the digits are not capped at zero.
    pub proof fn lemma_flood_avoids_mines(
        self,
        mines: Seq<(usize, usize)>,
        sx: int,
        sy: int,
        x: int,
        y: int,
    )
        requires
            self.digit_radius >= 1,
            !is_mine(mines, sx, sy),
            self.floods(mines, sx, sy, x, y),
        ensures
            !is_mine(mines, x, y),
    {
        self.lemma_flood_came_from(mines, sx, sy, x, y);
        if (x, y) != (sx, sy) {
            let p = choose|p: (int, int)|
                #[trigger] adjacent(p, (x, y)) && self.floods(mines, sx, sy, p.0, p.1)
                    && self.spreads(mines, p.0, p.1);
            self.lemma_no_mine_beside_zero(mines, p.0, p.1, x, y);
        }
    }

    /// What a reveal does to the tile at `(x, y)`: it uncovers the tile if it
    /// floods it, and leaves the flag alone.
    pub proof fn lemma_revealed_tile(
        self,
        mines: Seq<(usize, usize)>,
        sx: int,
        sy: int,
        x: int,
        y: int,
    )
        requires
            self.wf(),
            self.in_bounds(x, y),
        ensures
            self.revealed(mines, sx, sy).tile(x, y) == (Tile {
                covered: self.tile(x, y).covered && !self.floods(mines, sx, sy, x, y),
                flagged: self.tile(x, y).flagged,
            }),
    {
        self.lemma_index_in_range(x, y);
    }

    /// A reveal keeps the board well formed.
    pub proof fn lemma_revealed_wf(self, mines: Seq<(usize, usize)>, sx: int, sy: int)
        requires
            self.wf(),
        ensures
            self.revealed(mines, sx, sy).wf(),
    {
        let after = self.revealed(mines, sx, sy);
        assert forall|i: int| 0 <= i < after.tiles.len() implies (#[trigger] after.tiles[i]).covered
            || !after.tiles[i].flagged by {
            if !after.tiles[i].covered && self.tiles[i].covered {
                self.lemma_place_has_coordinate(i);
                self.lemma_flood_came_from(mines, sx, sy, self.column(i), self.row(i));
            }
        }
    }

    /// A reveal of a tile that is flagged or already uncovered changes
    /// nothing.
    pub proof fn lemma_unrevealable_is_kept(self, mines: Seq<(usize, usize)>, x: int, y: int)
        requires
            !self.revealable(x, y),
        ensures
            self.revealed(mines, x, y) == self,
    {
        assert forall|a: int, b: int| !self.floods(mines, x, y, a, b) by {
            if self.floods(mines, x, y, a, b) {
                self.lemma_flood_came_from(mines, x, y, a, b);
            }
        }
        assert(self.revealed(mines, x, y).tiles =~= self.tiles);
    }

    /// A second reveal of the same tile changes nothing: the first left it
    /// uncovered or flagged.
    pub proof fn lemma_reveal_twice(self, mines: Seq<(usize, usize)>, x: int, y: int)
        requires
            self.wf(),
        ensures
            self.revealed(mines, x, y).revealed(mines, x, y) == self.revealed(mines, x, y),
    {
        let after = self.revealed(mines, x, y);
        if self.in_bounds(x, y) {
            self.lemma_revealed_tile(mines, x, y, x, y);
            if self.revealable(x, y) {
                self.lemma_flood_start(mines, x, y);
            }
        }
        after.lemma_unrevealable_is_kept(mines, x, y);
    }

    /// Toggling a flag keeps the board well formed and uncovers nothing.
    pub proof fn lemma_toggled(self, x: int, y: int)
        requires
            self.wf(),
            self.in_bounds(x, y),
        ensures
            self.toggled(x, y).wf(),
            count_uncovered(self.toggled(x, y).tiles) == count_uncovered(self.tiles),
            forall|i: int|
                0 <= i < self.tiles.len() ==> (#[trigger] self.toggled(x, y).tiles[i]).covered
                    == self.tiles[i].covered,
    {
        self.lemma_index_in_range(x, y);
        if self.tile(x, y).covered {
            lemma_count_update(
                self.tiles,
                self.index(x, y),
                Tile { covered: true, flagged: !self.tile(x, y).flagged },
            );
        }
    }

    /// A mine that lies uncovered stays so: neither a reveal nor a flag
    /// covers a tile again.
    pub proof fn lemma_stepped_on_mine_stays(
        self,
        mines: Seq<(usize, usize)>,
        x: int,
        y: int,
        shown: Seq<(usize, usize)>,
    )
        requires
            self.wf(),
            self.in_bounds(x, y),
            self.stepped_on_mine(mines),
        ensures
            self.revealed(shown, x, y).stepped_on_mine(mines),
            self.toggled(x, y).stepped_on_mine(mines),
    {
        let i = choose|i: int|
            0 <= i < mines.len() && self.in_bounds((#[trigger] mines[i]).0 as int, mines[i].1 as int)
                && !self.tile(mines[i].0 as int, mines[i].1 as int).covered;
        let m = (mines[i].0 as int, mines[i].1 as int);
        self.lemma_revealed_tile(shown, x, y, m.0, m.1);
        self.lemma_index_in_range(m.0, m.1);
        self.lemma_index_in_range(x, y);
        assert(self.revealed(shown, x, y).in_bounds(mines[i].0 as int, mines[i].1 as int)
            && !self.revealed(shown, x, y).tile(mines[i].0 as int, mines[i].1 as int).covered);
        assert(self.toggled(x, y).in_bounds(mines[i].0 as int, mines[i].1 as int) && !self.toggled(
            x,
            y,
        ).tile(mines[i].0 as int, mines[i].1 as int).covered);
    }
}

/// The tiles of `board` with the first `k` of the mines uncovered.
spec fn with_mines_shown(board: Board, mines: Seq<(usize, usize)>, k: nat) -> Seq<Tile>
    decreases k,
{
    if k == 0 {
        board.tiles
    } else {
        with_mines_shown(board, mines, (k - 1) as nat).update(
            board.index(mines[k - 1].0 as int, mines[k - 1].1 as int),
            Tile { covered: false, flagged: false },
        )
    }
}

/// Whether one of the first `k` mines lies at place `i`.
spec fn mine_among(board: Board, mines: Seq<(usize, usize)>, k: nat, i: int) -> bool {
    exists|j: int| 0 <= j < k && board.index((#[trigger] mines[j]).0 as int, mines[j].1 as int) == i
}

/// While every mine is covered, uncovering the first `k` of them uncovers
/// `k` tiles, and those only.
proof fn lemma_with_mines_shown(board: Board, mines: Seq<(usize, usize)>, k: nat)
    requires
        board.wf(),
        board.accepts(mines),
        !board.stepped_on_mine(mines),
        k <= mines.len(),
    ensures
        with_mines_shown(board, mines, k).len() == board.tiles.len(),
        forall|i: int|
            0 <= i < board.tiles.len() ==> (#[trigger] with_mines_shown(board, mines, k)[i]).covered
                == (board.tiles[i].covered && !mine_among(board, mines, k, i)),
        count_uncovered(with_mines_shown(board, mines, k)) == count_uncovered(board.tiles) + k,
    decreases k,
{
    if k > 0 {
        let shown = with_mines_shown(board, mines, (k - 1) as nat);
        let m = (mines[k - 1].0 as int, mines[k - 1].1 as int);
        let at = board.index(m.0, m.1);
        lemma_with_mines_shown(board, mines, (k - 1) as nat);
        assert(board.in_bounds(m.0, m.1));
        board.lemma_index_in_range(m.0, m.1);
        assert(board.tile(m.0, m.1).covered);
        if mine_among(board, mines, (k - 1) as nat, at) {
            let j = choose|j: int|
                0 <= j < k - 1 && board.index((#[trigger] mines[j]).0 as int, mines[j].1 as int)
                    == at;
            board.lemma_index_in_range(mines[j].0 as int, mines[j].1 as int);
            assert(mines[j] == mines[k - 1]);
        }
        assert(shown[at].covered);
        lemma_count_update(shown, at, Tile { covered: false, flagged: false });
        let now = with_mines_shown(board, mines, k);
        assert forall|i: int| 0 <= i < board.tiles.len() implies (#[trigger] now[i]).covered == (
        board.tiles[i].covered && !mine_among(board, mines, k, i)) by {
            if i == at {
                assert(board.index(mines[k - 1].0 as int, mines[k - 1].1 as int) == i);
            } else {
                assert(now[i] == shown[i]);
                if mine_among(board, mines, k, i) {
                    let j = choose|j: int|
                        0 <= j < k && board.index((#[trigger] mines[j]).0 as int, mines[j].1 as int)
                            == i;
                    assert(j < k - 1);
                }
                if mine_among(board, mines, (k - 1) as nat, i) {
                    let j = choose|j: int|
                        0 <= j < k - 1 && board.index(
                            (#[trigger] mines[j]).0 as int,
                            mines[j].1 as int,
                        ) == i;
                    assert(0 <= j < k);
                }
            }
        }
    }
}

impl Board {
    /// While no mine is uncovered, the count tells the win: the uncovered
    /// tiles and the mines add up to the number of tiles exactly when every
    /// tile without a mine is uncovered.
    pub proof fn lemma_count_tells_the_win(self, mines: Seq<(usize, usize)>)
        requires
            self.wf(),
            self.accepts(mines),
            !self.stepped_on_mine(mines),
        ensures
            (count_uncovered(self.tiles) + mines.len() == self.tiles.len()) == forall|
                x: int,
                y: int,
            |
                self.in_bounds(x, y) && !is_mine(mines, x, y) ==> !(#[trigger] self.tile(
                    x,
                    y,
                )).covered,
    {
        let shown = with_mines_shown(self, mines, mines.len());
        lemma_with_mines_shown(self, mines, mines.len());
        lemma_count_uncovered_full(shown);
        if count_uncovered(self.tiles) + mines.len() == self.tiles.len() {
            assert forall|x: int, y: int|
                self.in_bounds(x, y) && !is_mine(mines, x, y) implies !(#[trigger] self.tile(
                x,
                y,
            )).covered by {
                self.lemma_index_in_range(x, y);
                let i = self.index(x, y);
                assert(!shown[i].covered);
                if mine_among(self, mines, mines.len(), i) {
                    let j = choose|j: int|
                        0 <= j < mines.len() && self.index(
                            (#[trigger] mines[j]).0 as int,
                            mines[j].1 as int,
                        ) == i;
                    self.lemma_index_in_range(mines[j].0 as int, mines[j].1 as int);
                    assert(mines[j].0 == x && mines[j].1 == y);
                }
            }
        } else {
            let i = choose|i: int| 0 <= i < shown.len() && (#[trigger] shown[i]).covered;
            self.lemma_place_has_coordinate(i);
            let x = self.column(i);
            let y = self.row(i);
            if is_mine(mines, x, y) {
                let j = choose|j: int|
                    0 <= j < mines.len() && (#[trigger] mines[j]).0 == x && mines[j].1 == y;
                assert(self.index(mines[j].0 as int, mines[j].1 as int) == i);
                assert(mine_among(self, mines, mines.len(), i));
            }
            assert(self.in_bounds(x, y) && !is_mine(mines, x, y) && self.tile(x, y).covered);
        }
    }
}

impl Board {
    /// What a reveal of a tile without a mine uncovers, if the digits are not
    /// capped at zero. The region holds the tile itself; its tiles were
    /// covered and unflagged, and none holds a mine; each but the first was
    /// reached from a tile of the region that touches it and has the digit
    /// zero; around a tile of the region with the digit zero nothing is left
    /// to reveal; a tile of the region beside which something is left to
    /// reveal has a digit above zero; and every tile of the region lies
    /// uncovered afterwards, while every other tile is as it was.
    pub proof fn lemma_flood_region(self, mines: Seq<(usize, usize)>, sx: int, sy: int)
        requires
            self.wf(),
            self.digit_radius >= 1,
            self.revealable(sx, sy),
            !is_mine(mines, sx, sy),
        ensures
            self.floods(mines, sx, sy, sx, sy),
            forall|x: int, y: int| #[trigger]
                self.floods(mines, sx, sy, x, y) ==> self.revealable(x, y) && !is_mine(mines, x, y),
            forall|x: int, y: int| #[trigger]
                self.floods(mines, sx, sy, x, y) && (x, y) != (sx, sy) ==> exists|p: (int, int)|
                    #[trigger] adjacent(p, (x, y)) && self.floods(mines, sx, sy, p.0, p.1)
                        && self.spreads(mines, p.0, p.1),
            forall|x: int, y: int, nx: int, ny: int|
                #[trigger] self.floods(mines, sx, sy, x, y) && self.spreads(mines, x, y)
                    && #[trigger] adjacent((x, y), (nx, ny)) ==> !self.revealed(
                    mines,
                    sx,
                    sy,
                ).revealable(nx, ny),
            forall|x: int, y: int, nx: int, ny: int|
                #[trigger] self.floods(mines, sx, sy, x, y) && #[trigger] adjacent((x, y), (nx, ny))
                    && self.revealed(mines, sx, sy).revealable(nx, ny) ==> self.adjacent_mines(
                    mines,
                    x,
                    y,
                ) > 0,
            forall|x: int, y: int|
                self.in_bounds(x, y) ==> #[trigger] self.revealed(mines, sx, sy).tile(x, y) == (
                if self.floods(mines, sx, sy, x, y) {
                    Tile { covered: false, flagged: false }
                } else {
                    self.tile(x, y)
                }),
    {
        self.lemma_flood_start(mines, sx, sy);
        assert forall|x: int, y: int| #[trigger]
            self.floods(mines, sx, sy, x, y) implies self.revealable(x, y) && !is_mine(
            mines,
            x,
            y,
        ) by {
            self.lemma_flood_came_from(mines, sx, sy, x, y);
            self.lemma_flood_avoids_mines(mines, sx, sy, x, y);
        }
        assert forall|x: int, y: int| #[trigger]
            self.floods(mines, sx, sy, x, y) && (x, y) != (sx, sy) implies exists|p: (int, int)|
            #[trigger] adjacent(p, (x, y)) && self.floods(mines, sx, sy, p.0, p.1) && self.spreads(
                mines,
                p.0,
                p.1,
            ) by {
            self.lemma_flood_came_from(mines, sx, sy, x, y);
        }
        assert forall|x: int, y: int, nx: int, ny: int|
            #[trigger] self.floods(mines, sx, sy, x, y) && self.spreads(mines, x, y)
                && #[trigger] adjacent((x, y), (nx, ny)) implies !self.revealed(
            mines,
            sx,
            sy,
        ).revealable(nx, ny) by {
            if self.revealed(mines, sx, sy).revealable(nx, ny) {
                self.lemma_revealed_tile(mines, sx, sy, nx, ny);
                self.lemma_flood_step(mines, sx, sy, x, y, nx, ny);
            }
        }
        assert forall|x: int, y: int, nx: int, ny: int|
            #[trigger] self.floods(mines, sx, sy, x, y) && #[trigger] adjacent((x, y), (nx, ny))
                && self.revealed(mines, sx, sy).revealable(nx, ny) implies self.adjacent_mines(
            mines,
            x,
            y,
        ) > 0 by {
            self.lemma_flood_boundary(mines, sx, sy, x, y, nx, ny);
            self.lemma_flood_avoids_mines(mines, sx, sy, x, y);
        }
        assert forall|x: int, y: int| self.in_bounds(x, y) implies #[trigger] self.revealed(
            mines,
            sx,
            sy,
        ).tile(x, y) == (if self.floods(mines, sx, sy, x, y) {
            Tile { covered: false, flagged: false }
        } else {
            self.tile(x, y)
        }) by {
            self.lemma_revealed_tile(mines, sx, sy, x, y);
            if self.floods(mines, sx, sy, x, y) {
                self.lemma_flood_came_from(mines, sx, sy, x, y);
            }
        }
    }

    /// While no mine lies uncovered and the digits are not capped at zero, a
    /// reveal uncovers a mine exactly when it is the reveal of a covered,
    /// unflagged tile with a mine: no flood ever reaches one.
    pub proof fn lemma_reveal_steps_on_mine(self, mines: Seq<(usize, usize)>, x: int, y: int)
        requires
            self.wf(),
            self.digit_radius >= 1,
            self.in_bounds(x, y),
            !self.stepped_on_mine(mines),
        ensures
            self.revealed(mines, x, y).stepped_on_mine(mines) == (self.revealable(x, y) && is_mine(
                mines,
                x,
                y,
            )),
    {
        let after = self.revealed(mines, x, y);
        if self.revealable(x, y) && is_mine(mines, x, y) {
            let i = choose|i: int|
                0 <= i < mines.len() && (#[trigger] mines[i]).0 == x && mines[i].1 == y;
            self.lemma_flood_start(mines, x, y);
            self.lemma_revealed_tile(mines, x, y, x, y);
            assert(after.in_bounds(mines[i].0 as int, mines[i].1 as int) && !after.tile(
                mines[i].0 as int,
                mines[i].1 as int,
            ).covered);
        } else if after.stepped_on_mine(mines) {
            let i = choose|i: int|
                0 <= i < mines.len() && after.in_bounds((#[trigger] mines[i]).0 as int, mines[i].1 as int)
                    && !after.tile(mines[i].0 as int, mines[i].1 as int).covered;
            let m = (mines[i].0 as int, mines[i].1 as int);
            self.lemma_revealed_tile(mines, x, y, m.0, m.1);
            assert(self.in_bounds(mines[i].0 as int, mines[i].1 as int));
            assert(self.tile(m.0, m.1).covered);
            assert(self.floods(mines, x, y, m.0, m.1));
            self.lemma_flood_came_from(mines, x, y, m.0, m.1);
            assert(is_mine(mines, m.0, m.1));
            if !is_mine(mines, x, y) {
                self.lemma_flood_avoids_mines(mines, x, y, m.0, m.1);
            }
        }
    }
}

} // verus!
