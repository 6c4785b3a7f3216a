//! The mine set: a list of coordinates that is laid over the field, and its
//! placement, which the seed of the field decides.

use vstd::prelude::*;
use crate::board::Board;
use crate::board::is_mine;
use crate::grid::Grid;

verus! {

/// The number of mines in a game.
pub const MINES_COUNT: usize = 5;

/// The generator's next state.
pub open spec fn next_random(state: u64) -> u64 {
    state.wrapping_mul(6364136223846793005u64).wrapping_add(1442695040888963407u64)
}

/// The place that the state picks among `len` candidates.
pub open spec fn pick(state: u64, len: int) -> int {
    ((state >> 32) as int) % len
}

/// No coordinate is listed twice.
pub open spec fn distinct(list: Seq<(usize, usize)>) -> bool {
    forall|i: int, j: int| 0 <= i < j < list.len() ==> list[i] != list[j]
}

/// `count` coordinates out of `pool`, or all of them if there are fewer: the
/// generator picks one of those that are left, takes it out, and goes on.
pub open spec fn drawn_from(pool: Seq<(usize, usize)>, state: u64, count: nat) -> Seq<
    (usize, usize),
>
    decreases count,
{
    if count == 0 || pool.len() == 0 {
        Seq::empty()
    } else {
        let next = next_random(state);
        let j = pick(next, pool.len() as int);
        seq![pool[j]] + drawn_from(pool.remove(j), next, (count - 1) as nat)
    }
}

impl Board {
    /// The mine set fits the field: every mine lies inside it, and none is
    /// listed twice.
    pub open spec fn accepts(self, mines: Seq<(usize, usize)>) -> bool {
        &&& forall|i: int|
            0 <= i < mines.len() ==> self.in_bounds((#[trigger] mines[i]).0 as int, mines[i].1 as int)
        &&& distinct(mines)
    }

    /// The coordinates of the first `n` places, without `first`, in the order
    /// of their places.
    pub open spec fn candidates(self, first: (int, int), n: nat) -> Seq<(usize, usize)>
        decreases n,
    {
        if n == 0 {
            Seq::empty()
        } else {
            let rest = self.candidates(first, (n - 1) as nat);
            let i = n - 1;
            if self.column(i) == first.0 && self.row(i) == first.1 {
                rest
            } else {
                rest.push((self.column(i) as usize, self.row(i) as usize))
            }
        }
    }

    /// Where the mines go when the first reveal is that of `first`.
    pub open spec fn mine_layout(self, count: nat, first: (int, int)) -> Seq<(usize, usize)> {
        drawn_from(self.candidates(first, self.tiles.len()), self.seed, count)
    }

    /// The candidates depend on the width of the field and on nothing else
    /// of it.
    pub proof fn lemma_candidates_by_width(self, other: Board, first: (int, int), n: nat)
        requires
            self.width == other.width,
        ensures
            self.candidates(first, n) == other.candidates(first, n),
        decreases n,
    {
        if n > 0 {
            self.lemma_candidates_by_width(other, first, (n - 1) as nat);
        }
    }

    /// Placement is reproducible: two fields of the same seed, width and
    /// height get the same mines for the same first reveal, whatever else
    /// differs between them.
    pub proof fn lemma_layout_reproducible(self, other: Board, count: nat, first: (int, int))
        requires
            self.wf(),
            other.wf(),
            self.seed == other.seed,
            self.width == other.width,
            self.height == other.height,
        ensures
            self.mine_layout(count, first) == other.mine_layout(count, first),
    {
        self.lemma_candidates_by_width(other, first, self.tiles.len());
    }

    /// The mines that are laid fit the field and keep off the first reveal;
    /// there are as many as were asked for, if the field has more tiles than
    /// that.
    pub proof fn lemma_layout_valid(self, count: nat, first: (int, int))
        requires
            self.wf(),
            self.fits(),
        ensures
            self.accepts(self.mine_layout(count, first)),
            !is_mine(self.mine_layout(count, first), first.0, first.1),
            self.mine_layout(count, first).len() <= count,
            count < self.tiles.len() ==> self.mine_layout(count, first).len() == count,
    {
        let pool = self.candidates(first, self.tiles.len());
        let mines = self.mine_layout(count, first);
        self.lemma_candidates(first, self.tiles.len());
        lemma_drawn_from(pool, self.seed, count);
        assert forall|m: int| 0 <= m < mines.len() implies self.in_bounds(
            (#[trigger] mines[m]).0 as int,
            mines[m].1 as int,
        ) && !(mines[m].0 == first.0 && mines[m].1 == first.1) by {
            assert(pool.contains(mines[m]));
        }
    }

    /// The first reveal is safe: on a field without an uncovered tile, with
    /// the mines laid for a first reveal of `(x, y)`, the reveal of `(x, y)`
    /// uncovers no mine.
    pub proof fn lemma_first_reveal_is_safe(self, count: nat, x: int, y: int)
        requires
            self.wf(),
            self.fits(),
            self.digit_radius >= 1,
            forall|i: int| 0 <= i < self.tiles.len() ==> (#[trigger] self.tiles[i]).covered,
        ensures
            !self.revealed(self.mine_layout(count, (x, y)), x, y).stepped_on_mine(
                self.mine_layout(count, (x, y)),
            ),
    {
        let mines = self.mine_layout(count, (x, y));
        let after = self.revealed(mines, x, y);
        self.lemma_layout_valid(count, (x, y));
        if after.stepped_on_mine(mines) {
            let i = choose|i: int|
                0 <= i < mines.len() && after.in_bounds((#[trigger] mines[i]).0 as int, mines[i].1 as int)
                    && !after.tile(mines[i].0 as int, mines[i].1 as int).covered;
            let m = (mines[i].0 as int, mines[i].1 as int);
            self.lemma_revealed_tile(mines, x, y, m.0, m.1);
            self.lemma_index_in_range(m.0, m.1);
            assert(self.floods(mines, x, y, m.0, m.1));
            self.lemma_flood_avoids_mines(mines, x, y, m.0, m.1);
            assert(is_mine(mines, m.0, m.1));
        }
    }

    /// The candidates lie inside the field, away from `first`, each at a
    /// later place than the one before; only `first` is left out.
    pub proof fn lemma_candidates(self, first: (int, int), n: nat)
        requires
            self.wf(),
            self.fits(),
            n <= self.tiles.len(),
        ensures
            forall|k: int|
                0 <= k < self.candidates(first, n).len() ==> {
                    let c = #[trigger] self.candidates(first, n)[k];
                    &&& self.in_bounds(c.0 as int, c.1 as int)
                    &&& self.index(c.0 as int, c.1 as int) < n
                    &&& !(c.0 == first.0 && c.1 == first.1)
                },
            forall|a: int, b: int|
                0 <= a < b < self.candidates(first, n).len() ==> self.index(
                    (#[trigger] self.candidates(first, n)[a]).0 as int,
                    self.candidates(first, n)[a].1 as int,
                ) < self.index(
                    (#[trigger] self.candidates(first, n)[b]).0 as int,
                    self.candidates(first, n)[b].1 as int,
                ),
            self.candidates(first, n).len() == n - (if self.in_bounds(first.0, first.1)
                && self.index(first.0, first.1) < n {
                1int
            } else {
                0int
            }),
            distinct(self.candidates(first, n)),
        decreases n,
    {
        if n > 0 {
            let rest = self.candidates(first, (n - 1) as nat);
            let i = n - 1;
            self.lemma_candidates(first, (n - 1) as nat);
            self.lemma_place_has_coordinate(i);
            if self.in_bounds(first.0, first.1) {
                self.lemma_index_in_range(first.0, first.1);
            }
            let all = self.candidates(first, n);
            if !(self.column(i) == first.0 && self.row(i) == first.1) {
                let c = (self.column(i) as usize, self.row(i) as usize);
                assert(all == rest.push(c));
                assert(c.0 as int == self.column(i) && c.1 as int == self.row(i));
                assert forall|k: int| 0 <= k < all.len() implies {
                    let c = #[trigger] all[k];
                    &&& self.in_bounds(c.0 as int, c.1 as int)
                    &&& self.index(c.0 as int, c.1 as int) < n
                    &&& !(c.0 == first.0 && c.1 == first.1)
                } by {
                    if k < rest.len() {
                        assert(all[k] == rest[k]);
                    }
                }
                assert forall|a: int, b: int| 0 <= a < b < all.len() implies self.index(
                    (#[trigger] all[a]).0 as int,
                    all[a].1 as int,
                ) < self.index((#[trigger] all[b]).0 as int, all[b].1 as int) by {
                    assert(all[a] == rest[a]);
                    if b < rest.len() {
                        assert(all[b] == rest[b]);
                    }
                }
            }
            assert forall|a: int, b: int| 0 <= a < b < all.len() implies all[a] != all[b] by {
                assert(self.index(all[a].0 as int, all[a].1 as int) < self.index(
                    all[b].0 as int,
                    all[b].1 as int,
                ));
            }
        }
    }
}

/// What is drawn from a pool without repeats comes out of the pool, without
/// repeats, and as many as were asked for while the pool lasts.
pub proof fn lemma_drawn_from(pool: Seq<(usize, usize)>, state: u64, count: nat)
    requires
        distinct(pool),
    ensures
        distinct(drawn_from(pool, state, count)),
        forall|k: int|
            0 <= k < drawn_from(pool, state, count).len() ==> pool.contains(
                #[trigger] drawn_from(pool, state, count)[k],
            ),
        drawn_from(pool, state, count).len() == if count <= pool.len() {
            count
        } else {
            pool.len()
        },
    decreases count,
{
    if count > 0 && pool.len() > 0 {
        let next = next_random(state);
        let j = pick(next, pool.len() as int);
        let rest = pool.remove(j);
        let tail = drawn_from(rest, next, (count - 1) as nat);
        let all = drawn_from(pool, state, count);
        assert(0 <= j < pool.len());
        assert forall|a: int, b: int| 0 <= a < b < rest.len() implies rest[a] != rest[b] by {
            assert(rest[a] == pool[if a < j { a } else { a + 1 }]);
            assert(rest[b] == pool[if b < j { b } else { b + 1 }]);
        }
        lemma_drawn_from(rest, next, (count - 1) as nat);
        assert(all == seq![pool[j]] + tail);
        assert(all[0] == pool[j]);
        assert forall|k: int| 0 <= k < all.len() implies pool.contains(#[trigger] all[k]) by {
            if k > 0 {
                assert(all[k] == tail[k - 1]);
                assert(rest.contains(tail[k - 1]));
                let m = choose|m: int| 0 <= m < rest.len() && rest[m] == tail[k - 1];
                assert(rest[m] == pool[if m < j { m } else { m + 1 }]);
            }
        }
        assert forall|a: int, b: int| 0 <= a < b < all.len() implies all[a] != all[b] by {
            assert(all[b] == tail[b - 1]);
            if a == 0 {
                assert(rest.contains(tail[b - 1]));
                let m = choose|m: int| 0 <= m < rest.len() && rest[m] == tail[b - 1];
                assert(rest[m] == pool[if m < j { m } else { m + 1 }]);
            } else {
                assert(all[a] == tail[a - 1]);
            }
        }
    }
}

/// Whether `(x, y)` is one of the listed mines.
pub fn contains_mine(mines: &Vec<(usize, usize)>, x: usize, y: usize) -> (found: bool)
    ensures
        found == is_mine(mines@, x as int, y as int),
{
    let mut i: usize = 0;
    while i < mines.len()
        invariant
            i <= mines.len(),
            forall|j: int| 0 <= j < i ==> !((#[trigger] mines@[j]).0 == x && mines@[j].1 == y),
        decreases mines.len() - i,
    {
        if mines[i].0 == x && mines[i].1 == y {
            return true;
        }
        i += 1;
    }
    false
}

impl Grid {
    /// Whether the mine set fits the field: every mine inside it, none
    /// listed twice.
    pub fn accepts_mines(&self, mines: &Vec<(usize, usize)>) -> (fits: bool)
        ensures
            fits == self@.accepts(mines@),
    {
        let mut i: usize = 0;
        while i < mines.len()
            invariant
                i <= mines.len(),
                forall|k: int|
                    0 <= k < i ==> self@.in_bounds((#[trigger] mines@[k]).0 as int, mines@[k].1 as int),
                forall|a: int, b: int| 0 <= a < b < i ==> mines@[a] != mines@[b],
            decreases mines.len() - i,
        {
            if !self.in_bounds(mines[i].0, mines[i].1) {
                return false;
            }
            let mut j: usize = 0;
            while j < i
                invariant
                    j <= i < mines.len(),
                    forall|a: int| 0 <= a < j ==> mines@[a] != mines@[i as int],
                decreases i - j,
            {
                if mines[j].0 == mines[i].0 && mines[j].1 == mines[i].1 {
                    return false;
                }
                j += 1;
            }
            i += 1;
        }
        true
    }

    /// Lays `count` mines, or as many as there are tiles beside `first`:
    /// inside the field, no two on one tile, none on `first`. The seed of the
    /// field decides where they go, so the same field and the same first
    /// reveal give the same mines.
    pub fn place_mines(&self, count: usize, first: (usize, usize)) -> (mines: Vec<(usize, usize)>)
        requires
            self.wf(),
        ensures
            mines@ == self@.mine_layout(count as nat, (first.0 as int, first.1 as int)),
            self@.accepts(mines@),
            !is_mine(mines@, first.0 as int, first.1 as int),
            mines@.len() <= count,
            count < self@.tiles.len() ==> mines@.len() == count,
    {
        let ghost board = self@;
        let ghost start = (first.0 as int, first.1 as int);
        let width = self.width();
        let total: usize = width * self.height();
        let mut pool: Vec<(usize, usize)> = Vec::new();
        let mut i: usize = 0;
        while i < total
            invariant
                board.wf(),
                board.fits(),
                board.width == width,
                total == board.tiles.len(),
                start == (first.0 as int, first.1 as int),
                i <= total,
                pool@ == board.candidates(start, i as nat),
            decreases total - i,
        {
            proof {
                board.lemma_place_has_coordinate(i as int);
            }
            let x = i % width;
            let y = i / width;
            let ghost rest = pool@;
            if !(x == first.0 && y == first.1) {
                pool.push((x, y));
            }
            proof {
                let n = (i + 1) as nat;
                assert(rest == board.candidates(start, (n - 1) as nat));
                assert(x == board.column(n - 1) && y == board.row(n - 1));
                assert(pool@ == board.candidates(start, n));
            }
            i += 1;
        }
        let ghost candidates = pool@;
        let mut mines: Vec<(usize, usize)> = Vec::new();
        let mut state: u64 = self.seed();
        let mut k: usize = 0;
        while k < count && pool.len() > 0
            invariant
                k <= count,
                mines@ + drawn_from(pool@, state, (count - k) as nat) == drawn_from(
                    candidates,
                    board.seed,
                    count as nat,
                ),
            decreases count - k,
        {
            let ghost left = pool@;
            let ghost laid = mines@;
            state = state.wrapping_mul(6364136223846793005u64).wrapping_add(1442695040888963407u64);
            let high: u64 = state >> 32;
            assert(high <= 0xffff_ffff) by (bit_vector)
                requires
                    high == state >> 32,
            ;
            let j = (high as usize) % pool.len();
            let mine = pool.remove(j);
            mines.push(mine);
            k += 1;
            proof {
                assert(j == pick(state, left.len() as int));
                assert(laid.push(mine) + drawn_from(left.remove(j as int), state, (count - k) as nat)
                    =~= laid + (seq![mine] + drawn_from(
                    left.remove(j as int),
                    state,
                    (count - k) as nat,
                )));
            }
        }
        proof {
            assert(drawn_from(pool@, state, (count - k) as nat) =~= Seq::empty());
            assert(mines@ =~= mines@ + Seq::empty());
            board.lemma_layout_valid(count as nat, start);
        }
        mines
    }
}

} // verus!
