//! The reveal: uncovering a tile and, from a tile without a mine whose digit
//! is zero, the tiles around it, and on from each of them by the same rule.
//!
//! The tiles from which the reveal still has to spread wait on a list; a
//! tile is put on it when it is uncovered, so at most once.

use vstd::prelude::*;
use crate::board::Board;
use crate::board::RevealOutcome;
use crate::board::Tile;
use crate::board::adjacent;
use crate::board::count_uncovered;
use crate::board::lemma_count_uncovered_bound;
use crate::board::lemma_count_update;
use crate::grid::Grid;
use crate::mines::contains_mine;

verus! {

/// A place that a flood has nothing left to do with: outside the field,
/// uncovered, or flagged.
spec fn settled(cur: Board, x: int, y: int) -> bool {
    !cur.in_bounds(x, y) || !cur.tile(x, y).covered || cur.tile(x, y).flagged
}

/// All eight places around `(x, y)` are settled.
spec fn closed_around(cur: Board, x: int, y: int) -> bool {
    &&& settled(cur, x - 1, y - 1)
    &&& settled(cur, x, y - 1)
    &&& settled(cur, x + 1, y - 1)
    &&& settled(cur, x - 1, y)
    &&& settled(cur, x + 1, y)
    &&& settled(cur, x - 1, y + 1)
    &&& settled(cur, x, y + 1)
    &&& settled(cur, x + 1, y + 1)
}

/// `(x, y)` was covered when the reveal began and is uncovered now.
spec fn newly_uncovered(before: Board, cur: Board, x: int, y: int) -> bool {
    before.tile(x, y).covered && !cur.tile(x, y).covered
}

/// `(x, y)` waits on the work list.
spec fn on_list(list: Seq<(usize, usize)>, x: int, y: int) -> bool {
    exists|k: int| 0 <= k < list.len() && (#[trigger] list[k]).0 == x && list[k].1 == y
}

/// What decreases while a reveal runs.
spec fn flood_measure(cur: Board, list: Seq<(usize, usize)>) -> int {
    2 * (cur.tiles.len() - count_uncovered(cur.tiles)) + list.len()
}

/// What holds of the tiles `cur` while a reveal of `(sx, sy)` on the board
/// `before` runs, with `list` the tiles still to spread from and `pending` the
/// one that is being spread from.
spec fn flood_inv(
    before: Board,
    cur: Board,
    mines: Seq<(usize, usize)>,
    sx: int,
    sy: int,
    list: Seq<(usize, usize)>,
    pending: Option<(int, int)>,
) -> bool {
    &&& before.wf()
    &&& cur == (Board { tiles: cur.tiles, ..before })
    &&& cur.tiles.len() == before.tiles.len()
    &&& forall|i: int|
        0 <= i < before.tiles.len() ==> {
            &&& (#[trigger] cur.tiles[i]).flagged == before.tiles[i].flagged
            &&& cur.tiles[i].covered ==> before.tiles[i].covered
            &&& before.tiles[i].covered && !cur.tiles[i].covered ==> before.floods(
                mines,
                sx,
                sy,
                before.column(i),
                before.row(i),
            )
        }
    &&& forall|k: int|
        0 <= k < list.len() ==> {
            &&& before.in_bounds((#[trigger] list[k]).0 as int, list[k].1 as int)
            &&& newly_uncovered(before, cur, list[k].0 as int, list[k].1 as int)
            &&& before.spreads(mines, list[k].0 as int, list[k].1 as int)
        }
    &&& forall|x: int, y: int|
        before.in_bounds(x, y) && #[trigger] newly_uncovered(before, cur, x, y) && before.spreads(
            mines,
            x,
            y,
        ) ==> on_list(list, x, y) || pending == Some((x, y)) || closed_around(cur, x, y)
}

/// A settled place stays settled when a tile is uncovered.
proof fn lemma_settled_stays(cur: Board, i: int, x: int, y: int)
    requires
        cur.wf(),
        0 <= i < cur.tiles.len(),
        settled(cur, x, y),
    ensures
        settled(
            Board { tiles: cur.tiles.update(i, Tile { covered: false, flagged: false }), ..cur },
            x,
            y,
        ),
{
    if cur.in_bounds(x, y) {
        cur.lemma_index_in_range(x, y);
    }
}

/// Around a closed tile, every place that touches it is settled.
proof fn lemma_closed_settles(cur: Board, p: (int, int), t: (int, int))
    requires
        closed_around(cur, p.0, p.1),
        adjacent(p, t),
    ensures
        settled(cur, t.0, t.1),
{
    let dx = t.0 - p.0;
    let dy = t.1 - p.1;
    assert(t.0 == p.0 + dx && t.1 == p.1 + dy);
    if dx == -1 {
        if dy == -1 {
            assert(settled(cur, p.0 - 1, p.1 - 1));
        } else if dy == 0 {
            assert(settled(cur, p.0 - 1, p.1));
        } else {
            assert(settled(cur, p.0 - 1, p.1 + 1));
        }
    } else if dx == 0 {
        if dy == -1 {
            assert(settled(cur, p.0, p.1 - 1));
        } else {
            assert(settled(cur, p.0, p.1 + 1));
        }
    } else {
        if dy == -1 {
            assert(settled(cur, p.0 + 1, p.1 - 1));
        } else if dy == 0 {
            assert(settled(cur, p.0 + 1, p.1));
        } else {
            assert(settled(cur, p.0 + 1, p.1 + 1));
        }
    }
}

/// Where nothing waits any more, a revealable tile that touches a newly
/// uncovered tile that spreads is uncovered too.
proof fn lemma_flood_closed(
    before: Board,
    cur: Board,
    mines: Seq<(usize, usize)>,
    sx: int,
    sy: int,
    p: (int, int),
    t: (int, int),
)
    requires
        flood_inv(before, cur, mines, sx, sy, Seq::empty(), None),
        before.in_bounds(p.0, p.1),
        newly_uncovered(before, cur, p.0, p.1),
        before.spreads(mines, p.0, p.1),
        adjacent(p, t),
        before.revealable(t.0, t.1),
    ensures
        newly_uncovered(before, cur, t.0, t.1),
{
    assert(!on_list(Seq::<(usize, usize)>::empty(), p.0, p.1));
    assert(closed_around(cur, p.0, p.1));
    lemma_closed_settles(cur, p, t);
    before.lemma_index_in_range(t.0, t.1);
    let i = before.index(t.0, t.1);
    assert(cur.tiles[i].flagged == before.tiles[i].flagged);
}

/// Where nothing waits any more, the reveal has uncovered the last tile of
/// every way that it can take.
proof fn lemma_flood_complete(
    before: Board,
    cur: Board,
    mines: Seq<(usize, usize)>,
    sx: int,
    sy: int,
    path: Seq<(int, int)>,
)
    requires
        flood_inv(before, cur, mines, sx, sy, Seq::empty(), None),
        newly_uncovered(before, cur, sx, sy),
        before.is_flood_path(mines, path),
        path[0] == (sx, sy),
    ensures
        newly_uncovered(before, cur, path.last().0, path.last().1),
    decreases path.len(),
{
    if path.len() > 1 {
        let front = path.drop_last();
        let p = front.last();
        assert forall|i: int| 0 <= i < front.len() implies before.revealable(
            (#[trigger] front[i]).0,
            front[i].1,
        ) by {
            assert(front[i] == path[i]);
        }
        assert forall|i: int| 0 <= i < front.len() - 1 implies before.spreads(
            mines,
            (#[trigger] front[i]).0,
            front[i].1,
        ) && adjacent(front[i], front[i + 1]) by {
            assert(front[i] == path[i]);
            assert(front[i + 1] == path[i + 1]);
        }
        lemma_flood_complete(before, cur, mines, sx, sy, front);
        assert(p == path[path.len() - 2]);
        assert(before.spreads(mines, path[path.len() - 2].0, path[path.len() - 2].1) && adjacent(
            path[path.len() - 2],
            path[path.len() - 2 + 1],
        ));
        assert(before.revealable(path[path.len() - 1].0, path[path.len() - 1].1));
        lemma_flood_closed(before, cur, mines, sx, sy, p, path.last());
    }
}

impl Grid {
    /// Uncovers the revealable tile `(x, y)`, which the reveal floods, and
    /// puts it on the work list if the reveal spreads on from it.
    fn uncover(
        &mut self,
        mines: &Vec<(usize, usize)>,
        x: usize,
        y: usize,
        list: &mut Vec<(usize, usize)>,
        Ghost(before): Ghost<Board>,
        Ghost(start): Ghost<(int, int)>,
        Ghost(pending): Ghost<Option<(int, int)>>,
    )
        requires
            old(self).wf(),
            flood_inv(before, old(self)@, mines@, start.0, start.1, old(list)@, pending),
            old(self)@.revealable(x as int, y as int),
            before.floods(mines@, start.0, start.1, x as int, y as int),
        ensures
            final(self).wf(),
            flood_inv(before, final(self)@, mines@, start.0, start.1, final(list)@, pending),
            newly_uncovered(before, final(self)@, x as int, y as int),
            forall|a: int, b: int| #[trigger]
                settled(old(self)@, a, b) ==> settled(final(self)@, a, b),
            forall|a: int, b: int| #[trigger]
                newly_uncovered(before, old(self)@, a, b) && before.in_bounds(a, b)
                    ==> newly_uncovered(before, final(self)@, a, b),
            flood_measure(final(self)@, final(list)@) < flood_measure(old(self)@, old(list)@),
    {
        let i = self.place(x, y);
        let ghost cur = self@;
        let ghost waiting = list@;
        proof {
            cur.lemma_index_in_range(x as int, y as int);
            lemma_count_update(cur.tiles, i as int, Tile { covered: false, flagged: false });
        }
        self.clear(i);
        if !contains_mine(mines, x, y) && self.adjacent_mine_count(x, y, mines) == 0 {
            list.push((x, y));
            proof {
                assert(list@[waiting.len() as int] == (x, y));
                assert(on_list(list@, x as int, y as int));
            }
        }
        proof {
            let now = self@;
            assert(now == (Board {
                tiles: cur.tiles.update(i as int, Tile { covered: false, flagged: false }),
                ..cur
            }));
            assert forall|a: int, b: int| #[trigger] settled(cur, a, b) implies settled(
                now,
                a,
                b,
            ) by {
                lemma_settled_stays(cur, i as int, a, b);
            }
            assert forall|a: int, b: int| #[trigger]
                newly_uncovered(before, cur, a, b) && before.in_bounds(a, b) implies newly_uncovered(
                before,
                now,
                a,
                b,
            ) by {
                before.lemma_index_in_range(a, b);
            }
            assert forall|k: int| 0 <= k < list@.len() implies {
                &&& before.in_bounds((#[trigger] list@[k]).0 as int, list@[k].1 as int)
                &&& newly_uncovered(before, now, list@[k].0 as int, list@[k].1 as int)
                &&& before.spreads(mines@, list@[k].0 as int, list@[k].1 as int)
            } by {
                if k < waiting.len() {
                    assert(list@[k] == waiting[k]);
                    assert(newly_uncovered(before, cur, waiting[k].0 as int, waiting[k].1 as int));
                }
            }
            assert forall|a: int, b: int|
                before.in_bounds(a, b) && #[trigger] newly_uncovered(before, now, a, b)
                    && before.spreads(mines@, a, b) implies on_list(list@, a, b) || pending == Some(
                (a, b),
            ) || closed_around(now, a, b) by {
                before.lemma_index_in_range(a, b);
                if before.index(a, b) == i {
                    assert(a == x && b == y);
                } else {
                    assert(newly_uncovered(before, cur, a, b));
                    if on_list(waiting, a, b) {
                        let k = choose|k: int|
                            0 <= k < waiting.len() && (#[trigger] waiting[k]).0 == a
                                && waiting[k].1 == b;
                        assert(list@[k] == waiting[k]);
                    }
                }
            }
        }
    }

    /// Lets the reveal spread from `(cx, cy)` to the tile at the offset
    /// `(dx, dy)`.
    fn spread(
        &mut self,
        mines: &Vec<(usize, usize)>,
        cx: usize,
        cy: usize,
        dx: i8,
        dy: i8,
        list: &mut Vec<(usize, usize)>,
        Ghost(before): Ghost<Board>,
        Ghost(start): Ghost<(int, int)>,
    )
        requires
            old(self).wf(),
            flood_inv(
                before,
                old(self)@,
                mines@,
                start.0,
                start.1,
                old(list)@,
                Some((cx as int, cy as int)),
            ),
            before.in_bounds(cx as int, cy as int),
            newly_uncovered(before, old(self)@, cx as int, cy as int),
            before.spreads(mines@, cx as int, cy as int),
            -1 <= dx <= 1,
            -1 <= dy <= 1,
            dx != 0 || dy != 0,
        ensures
            final(self).wf(),
            flood_inv(
                before,
                final(self)@,
                mines@,
                start.0,
                start.1,
                final(list)@,
                Some((cx as int, cy as int)),
            ),
            newly_uncovered(before, final(self)@, cx as int, cy as int),
            settled(final(self)@, cx + dx, cy + dy),
            forall|a: int, b: int| #[trigger]
                settled(old(self)@, a, b) ==> settled(final(self)@, a, b),
            forall|a: int, b: int| #[trigger]
                newly_uncovered(before, old(self)@, a, b) && before.in_bounds(a, b)
                    ==> newly_uncovered(before, final(self)@, a, b),
            flood_measure(final(self)@, final(list)@) <= flood_measure(old(self)@, old(list)@),
    {
        match self.neighbour(cx, cy, dx, dy) {
            Some((nx, ny)) => {
                let t = self.tile(nx, ny);
                if t.covered && !t.flagged {
                    proof {
                        before.lemma_index_in_range(cx as int, cy as int);
                        before.lemma_index_in_range(nx as int, ny as int);
                        before.lemma_flood_step(
                            mines@,
                            start.0,
                            start.1,
                            cx as int,
                            cy as int,
                            nx as int,
                            ny as int,
                        );
                    }
                    self.uncover(
                        mines,
                        nx,
                        ny,
                        list,
                        Ghost(before),
                        Ghost(start),
                        Ghost(Some((cx as int, cy as int))),
                    );
                }
            },
            None => {},
        }
    }

    /// Uncovers `(x, y)` unless it is flagged or already uncovered. From a
    /// tile without a mine whose digit is zero the reveal spreads to the tiles
    /// around it, and on from each of them by the same rule.
    pub fn reveal_tile(&mut self, x: usize, y: usize, mines: &Vec<(usize, usize)>) -> (outcome:
        RevealOutcome)
        requires
            old(self).wf(),
            old(self)@.in_bounds(x as int, y as int),
        ensures
            final(self).wf(),
            final(self)@ == old(self)@.revealed(mines@, x as int, y as int),
            outcome == old(self)@.outcome(mines@, x as int, y as int),
            !old(self)@.revealable(x as int, y as int) ==> final(self)@ == old(self)@,
    {
        let ghost before = self@;
        let ghost start = (x as int, y as int);
        let t = self.tile(x, y);
        if !t.covered || t.flagged {
            proof {
                before.lemma_unrevealable_is_kept(mines@, x as int, y as int);
            }
            return RevealOutcome::Ignored;
        }
        let mut list: Vec<(usize, usize)> = Vec::new();
        proof {
            before.lemma_flood_start(mines@, x as int, y as int);
            assert(flood_inv(before, before, mines@, start.0, start.1, list@, None));
        }
        self.uncover(mines, x, y, &mut list, Ghost(before), Ghost(start), Ghost(None));
        while list.len() > 0
            invariant
                self.wf(),
                flood_inv(before, self@, mines@, start.0, start.1, list@, None),
                newly_uncovered(before, self@, start.0, start.1),
                before.in_bounds(start.0, start.1),
            decreases flood_measure(self@, list@),
        {
            proof {
                lemma_count_uncovered_bound(self@.tiles);
            }
            let ghost waiting = list@;
            let ghost entry = self@;
            let (cx, cy) = list.pop().unwrap();
            let ghost c = (cx as int, cy as int);
            proof {
                assert(waiting[waiting.len() - 1] == (cx, cy));
                assert forall|a: int, b: int|
                    before.in_bounds(a, b) && #[trigger] newly_uncovered(before, entry, a, b)
                        && before.spreads(mines@, a, b) implies on_list(list@, a, b) || Some(c)
                    == Some((a, b)) || closed_around(entry, a, b) by {
                    if on_list(waiting, a, b) {
                        let k = choose|k: int|
                            0 <= k < waiting.len() && (#[trigger] waiting[k]).0 == a
                                && waiting[k].1 == b;
                        if k < waiting.len() - 1 {
                            assert(list@[k] == waiting[k]);
                        }
                    }
                }
                assert forall|k: int| 0 <= k < list@.len() implies {
                    &&& before.in_bounds((#[trigger] list@[k]).0 as int, list@[k].1 as int)
                    &&& newly_uncovered(before, entry, list@[k].0 as int, list@[k].1 as int)
                    &&& before.spreads(mines@, list@[k].0 as int, list@[k].1 as int)
                } by {
                    assert(list@[k] == waiting[k]);
                }
                assert(flood_inv(before, entry, mines@, start.0, start.1, list@, Some(c)));
            }
            self.spread(mines, cx, cy, -1, -1, &mut list, Ghost(before), Ghost(start));
            self.spread(mines, cx, cy, 0, -1, &mut list, Ghost(before), Ghost(start));
            self.spread(mines, cx, cy, 1, -1, &mut list, Ghost(before), Ghost(start));
            self.spread(mines, cx, cy, -1, 0, &mut list, Ghost(before), Ghost(start));
            self.spread(mines, cx, cy, 1, 0, &mut list, Ghost(before), Ghost(start));
            self.spread(mines, cx, cy, -1, 1, &mut list, Ghost(before), Ghost(start));
            self.spread(mines, cx, cy, 0, 1, &mut list, Ghost(before), Ghost(start));
            self.spread(mines, cx, cy, 1, 1, &mut list, Ghost(before), Ghost(start));
            proof {
                assert(closed_around(self@, c.0, c.1));
                lemma_count_uncovered_bound(self@.tiles);
            }
        }
        proof {
            let now = self@;
            let goal = before.revealed(mines@, x as int, y as int);
            assert(list@ =~= Seq::empty());
            assert forall|i: int| 0 <= i < now.tiles.len() implies now.tiles[i] == goal.tiles[i] by {
                before.lemma_place_has_coordinate(i);
                let a = before.column(i);
                let b = before.row(i);
                if before.floods(mines@, start.0, start.1, a, b) {
                    let path = choose|path: Seq<(int, int)>|
                        #[trigger] before.is_flood_path(mines@, path) && path[0] == start
                            && path.last() == (a, b);
                    lemma_flood_complete(before, now, mines@, start.0, start.1, path);
                }
            }
            assert(now.tiles =~= goal.tiles);
        }
        if contains_mine(mines, x, y) {
            RevealOutcome::Detonated
        } else {
            RevealOutcome::Cleared
        }
    }
}

} // verus!
