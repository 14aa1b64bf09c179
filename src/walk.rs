use vstd::prelude::*;

use crate::tile::{pos_of, Direction, MapTile};

verus! {

/// The cell reached from `p` by the move `d`.
pub open spec fn step_pos(p: (u32, u32), d: Direction) -> (u32, u32) {
    match d {
        Direction::Down => (p.0, (p.1 + 1) as u32),
        Direction::Right => ((p.0 + 1) as u32, p.1),
        Direction::Left => ((p.0 - 1) as u32, p.1),
    }
}

/// Whether the move `d` may be taken from cell `p` of a grid `width` columns
/// wide, right after the move `prev`: it keeps to the grid and does not turn
/// straight back.
pub open spec fn can_move(width: u32, p: (u32, u32), prev: Direction, d: Direction) -> bool {
    match d {
        Direction::Down => true,
        Direction::Right => p.0 + 1 < width && prev != Direction::Left,
        Direction::Left => p.0 > 0 && prev != Direction::Right,
    }
}

/// The move taken before move `i`; the walk begins as if it had come down.
pub open spec fn prev_at(moves: Seq<Direction>, i: int) -> Direction {
    if i == 0 {
        Direction::Down
    } else {
        moves[i - 1]
    }
}

/// The cells that `moves` visit from `start`, `start` first.
#[verifier::opaque]
pub open spec fn walk_cells(start: (u32, u32), moves: Seq<Direction>) -> Seq<(u32, u32)>
    decreases moves.len(),
{
    if moves.len() == 0 {
        seq![start]
    } else {
        let cells = walk_cells(start, moves.drop_last());
        cells.push(step_pos(cells.last(), moves.last()))
    }
}

/// The cell where `moves` from `start` arrive.
pub open spec fn walk_pos(start: (u32, u32), moves: Seq<Direction>) -> (u32, u32) {
    walk_cells(start, moves).last()
}

/// Move `i` of `moves` from `start` is taken above the bottom row and is
/// allowed by `can_move`.
pub open spec fn move_ok(
    width: u32,
    height: u32,
    start: (u32, u32),
    moves: Seq<Direction>,
    i: int,
) -> bool {
    let p = walk_cells(start, moves)[i];
    p.1 + 1 < height && can_move(width, p, prev_at(moves, i), moves[i])
}

/// `moves` form a walk from `start`, on the top row of a grid `width` by
/// `height`: every move is taken above the bottom row and is allowed by
/// `can_move`.
pub open spec fn walk_ok(width: u32, height: u32, start: (u32, u32), moves: Seq<Direction>) -> bool {
    &&& 2 <= height
    &&& start.0 < width
    &&& start.1 == 0
    &&& forall|i: int| 0 <= i < moves.len() ==> #[trigger] move_ok(width, height, start, moves, i)
}

/// `moves` form a walk from `start` that has reached the bottom row.
pub open spec fn walk_complete(
    width: u32,
    height: u32,
    start: (u32, u32),
    moves: Seq<Direction>,
) -> bool {
    walk_ok(width, height, start, moves) && walk_pos(start, moves).1 == height - 1
}

/// The tile recorded for the cell that move `i` leaves.
pub open spec fn record_at(start: (u32, u32), moves: Seq<Direction>, i: int) -> MapTile {
    let p = walk_cells(start, moves)[i];
    if i == 0 {
        MapTile::Entrance { pos: p, to: moves[0] }
    } else {
        MapTile::Path { pos: p, from: moves[i - 1], to: moves[i] }
    }
}

/// The tiles recorded while taking `moves`: one per move, for the cell it leaves.
pub open spec fn walk_records(start: (u32, u32), moves: Seq<Direction>) -> Seq<MapTile> {
    Seq::new(moves.len(), |i: int| record_at(start, moves, i))
}

/// The tiles of a finished walk: its records, then the exit where it arrived.
pub open spec fn walk_tiles(start: (u32, u32), moves: Seq<Direction>) -> Seq<MapTile> {
    walk_records(start, moves).push(
        MapTile::Exit { pos: walk_pos(start, moves), from: moves.last() },
    )
}

/// The cells of a walk: one more than its moves, each reached from the one
/// before by a move.
pub proof fn lemma_walk_cells(start: (u32, u32), moves: Seq<Direction>)
    ensures
        walk_cells(start, moves).len() == moves.len() + 1,
        walk_cells(start, moves)[0] == start,
        forall|i: int|
            #![trigger moves[i]]
            0 <= i < moves.len() ==> walk_cells(start, moves)[i + 1] == step_pos(
                walk_cells(start, moves)[i],
                moves[i],
            ),
    decreases moves.len(),
{
    reveal(walk_cells);
    if moves.len() > 0 {
        let init = moves.drop_last();
        lemma_walk_cells(start, init);
        assert forall|i: int| #![trigger moves[i]] 0 <= i < moves.len() implies walk_cells(
            start,
            moves,
        )[i + 1] == step_pos(walk_cells(start, moves)[i], moves[i]) by {
            if i + 1 < moves.len() {
                assert(init[i] == moves[i]);
            }
        }
    }
}

/// Taking one more move extends the cells by the cell it reaches.
pub proof fn lemma_walk_cells_push(start: (u32, u32), moves: Seq<Direction>, d: Direction)
    ensures
        walk_cells(start, moves.push(d)) == walk_cells(start, moves).push(
            step_pos(walk_pos(start, moves), d),
        ),
{
    reveal(walk_cells);
    assert(moves.push(d).drop_last() =~= moves);
}

/// A walk extended by a move that `can_move` allows, above the bottom row, is
/// still a walk; the move adds one record, for the cell it leaves.
pub proof fn lemma_walk_push(
    width: u32,
    height: u32,
    start: (u32, u32),
    moves: Seq<Direction>,
    d: Direction,
)
    requires
        walk_ok(width, height, start, moves),
        walk_pos(start, moves).1 + 1 < height,
        can_move(width, walk_pos(start, moves), prev_at(moves, moves.len() as int), d),
    ensures
        walk_ok(width, height, start, moves.push(d)),
        walk_pos(start, moves.push(d)) == step_pos(walk_pos(start, moves), d),
        walk_records(start, moves.push(d)) == walk_records(start, moves).push(
            if moves.len() == 0 {
                MapTile::Entrance { pos: walk_pos(start, moves), to: d }
            } else {
                MapTile::Path { pos: walk_pos(start, moves), from: moves.last(), to: d }
            },
        ),
{
    let next = moves.push(d);
    let cells = walk_cells(start, moves);
    lemma_walk_cells(start, moves);
    lemma_walk_cells_push(start, moves, d);
    assert forall|i: int| 0 <= i < next.len() implies #[trigger] move_ok(
        width,
        height,
        start,
        next,
        i,
    ) by {
        assert(walk_cells(start, next)[i] == cells[i]);
        if i < moves.len() {
            assert(move_ok(width, height, start, moves, i));
            assert(next[i] == moves[i]);
            assert(prev_at(next, i) == prev_at(moves, i));
        }
    }
    assert(walk_records(start, next) =~= walk_records(start, moves).push(
        record_at(start, next, moves.len() as int),
    ));
}

/// Every cell of a walk, its last included, lies in the grid.
pub proof fn lemma_walk_in_grid(
    width: u32,
    height: u32,
    start: (u32, u32),
    moves: Seq<Direction>,
    n: int,
)
    requires
        walk_ok(width, height, start, moves),
        0 <= n <= moves.len(),
    ensures
        forall|i: int|
            0 <= i <= n ==> (#[trigger] walk_cells(start, moves)[i]).0 < width
                && walk_cells(start, moves)[i].1 < height,
    decreases n,
{
    lemma_walk_cells(start, moves);
    if n > 0 {
        lemma_walk_in_grid(width, height, start, moves, n - 1);
        assert(move_ok(width, height, start, moves, n - 1));
        assert(walk_cells(start, moves)[n] == step_pos(walk_cells(start, moves)[n - 1], moves[n - 1]));
    }
}

/// Between cells `i` and `j` of a walk the row never goes up; where it stays
/// the same, every move between them went the same way sideways, so the
/// column has moved that way.
pub proof fn lemma_walk_same_row(
    width: u32,
    height: u32,
    start: (u32, u32),
    moves: Seq<Direction>,
    i: int,
    j: int,
)
    requires
        walk_ok(width, height, start, moves),
        0 <= i < j <= moves.len(),
    ensures
        ({
            let cells = walk_cells(start, moves);
            ||| cells[j].1 > cells[i].1
            ||| {
                &&& cells[j].1 == cells[i].1
                &&& moves[j - 1] == moves[i]
                &&& moves[i] == Direction::Right ==> cells[j].0 > cells[i].0
                &&& moves[i] == Direction::Left ==> cells[j].0 < cells[i].0
                &&& moves[i] != Direction::Down
            }
        }),
    decreases j - i,
{
    let cells = walk_cells(start, moves);
    lemma_walk_cells(start, moves);
    assert(move_ok(width, height, start, moves, j - 1));
    assert(cells[j] == step_pos(cells[j - 1], moves[j - 1]));
    if j > i + 1 {
        lemma_walk_same_row(width, height, start, moves, i, j - 1);
        assert(prev_at(moves, j - 1) == moves[j - 2]);
    }
}

/// No cell of a walk is visited twice.
pub proof fn lemma_walk_cells_distinct(
    width: u32,
    height: u32,
    start: (u32, u32),
    moves: Seq<Direction>,
)
    requires
        walk_ok(width, height, start, moves),
    ensures
        forall|i: int, j: int|
            0 <= i < j <= moves.len() ==> #[trigger] walk_cells(start, moves)[i]
                != #[trigger] walk_cells(start, moves)[j],
{
    assert forall|i: int, j: int| 0 <= i < j <= moves.len() implies #[trigger] walk_cells(
        start,
        moves,
    )[i] != #[trigger] walk_cells(start, moves)[j] by {
        lemma_walk_same_row(width, height, start, moves, i, j);
    }
}

/// A walk never turns straight back: no `Left` is directly followed by a
/// `Right`, nor a `Right` by a `Left`.
pub proof fn lemma_walk_no_reversal(
    width: u32,
    height: u32,
    start: (u32, u32),
    moves: Seq<Direction>,
)
    requires
        walk_ok(width, height, start, moves),
    ensures
        forall|i: int|
            0 <= i < moves.len() - 1 ==> !(#[trigger] moves[i] == Direction::Left && moves[i + 1]
                == Direction::Right) && !(moves[i] == Direction::Right && moves[i + 1]
                == Direction::Left),
{
    assert forall|i: int| 0 <= i < moves.len() - 1 implies !(#[trigger] moves[i] == Direction::Left
        && moves[i + 1] == Direction::Right) && !(moves[i] == Direction::Right && moves[i + 1]
        == Direction::Left) by {
        assert(move_ok(width, height, start, moves, i + 1));
    }
}

/// No path tile of a finished walk is entered going one way sideways and
/// left going the other.
pub proof fn lemma_walk_tiles_no_reversal(
    width: u32,
    height: u32,
    start: (u32, u32),
    moves: Seq<Direction>,
)
    requires
        walk_ok(width, height, start, moves),
        moves.len() > 0,
    ensures
        forall|t: int|
            0 <= t <= moves.len() ==> (#[trigger] walk_tiles(start, moves)[t] matches MapTile::Path {
                from,
                to,
                ..
            } ==> !(from == Direction::Left && to == Direction::Right) && !(from
                == Direction::Right && to == Direction::Left)),
{
    assert forall|t: int| 0 <= t <= moves.len() implies (#[trigger] walk_tiles(start, moves)[t] matches MapTile::Path {
        from,
        to,
        ..
    } ==> !(from == Direction::Left && to == Direction::Right) && !(from == Direction::Right && to
        == Direction::Left)) by {
        if 0 < t < moves.len() {
            assert(walk_tiles(start, moves)[t] == record_at(start, moves, t));
            assert(move_ok(width, height, start, moves, t));
            assert(prev_at(moves, t) == moves[t - 1]);
        }
    }
}

/// Tile `t` of a finished walk describes cell `t` of the walk.
pub proof fn lemma_walk_tiles_pos(start: (u32, u32), moves: Seq<Direction>)
    requires
        moves.len() > 0,
    ensures
        walk_tiles(start, moves).len() == moves.len() + 1,
        forall|t: int|
            0 <= t <= moves.len() ==> pos_of(#[trigger] walk_tiles(start, moves)[t])
                == walk_cells(start, moves)[t],
{
    lemma_walk_cells(start, moves);
}

/// The direction that a random draw picks: each of the three for a third of
/// the draws.
pub open spec fn draw_direction(draw: u32) -> Direction {
    if draw % 3 == 0 {
        Direction::Down
    } else if draw % 3 == 1 {
        Direction::Right
    } else {
        Direction::Left
    }
}

/// Picks the direction for a random draw.
pub fn direction_from_draw(draw: u32) -> (r: Direction)
    ensures
        r == draw_direction(draw),
{
    let k: u32 = draw % 3;
    if k == 0 {
        Direction::Down
    } else if k == 1 {
        Direction::Right
    } else {
        Direction::Left
    }
}

/// A walk in progress from a cell of the top row of a `width` by `height`
/// grid down to its bottom row.
pub struct PathWalker {
    pub width: u32,
    pub height: u32,
    pub start: (u32, u32),
    /// The cell reached so far.
    pub current: (u32, u32),
    /// The last move taken, `Down` before the first.
    pub prev_direction: Direction,
    /// One tile per move taken, for the cell that the move left.
    pub records: Vec<MapTile>,
    /// The moves taken so far.
    pub moves: Ghost<Seq<Direction>>,
}

impl PathWalker {
    pub open spec fn wf(&self) -> bool {
        &&& self.width >= 1
        &&& walk_ok(self.width, self.height, self.start, self.moves@)
        &&& self.current == walk_pos(self.start, self.moves@)
        &&& self.current.0 < self.width
        &&& self.current.1 < self.height
        &&& self.prev_direction == prev_at(self.moves@, self.moves@.len() as int)
        &&& self.records@ == walk_records(self.start, self.moves@)
    }

    /// A walk that has taken no move yet.
    pub fn new(width: u32, height: u32, start: (u32, u32)) -> (r: PathWalker)
        requires
            height >= 2,
            start.0 < width,
            start.1 == 0,
        ensures
            r.wf(),
            r.width == width,
            r.height == height,
            r.start == start,
            r.moves@ == Seq::<Direction>::empty(),
            r.current == start,
            r.prev_direction == Direction::Down,
    {
        let r = PathWalker {
            width,
            height,
            start,
            current: start,
            prev_direction: Direction::Down,
            records: Vec::new(),
            moves: Ghost(Seq::empty()),
        };
        proof {
            lemma_walk_cells(start, r.moves@);
        }
        assert(r.records@ =~= walk_records(start, r.moves@));
        r
    }

    /// Whether the walk has reached the bottom row.
    pub fn is_done(&self) -> (r: bool)
        requires
            self.wf(),
        ensures
            r == (self.current.1 + 1 == self.height),
    {
        self.current.1 + 1 == self.height
    }

    /// Tries the move `dir`. It is taken when the walk is above the bottom
    /// row and `can_move` allows it; otherwise nothing changes (a stall).
    /// Returns whether it was taken.
    pub fn step(&mut self, dir: Direction) -> (moved: bool)
        requires
            old(self).wf(),
        ensures
            final(self).wf(),
            final(self).width == old(self).width,
            final(self).height == old(self).height,
            final(self).start == old(self).start,
            moved == (old(self).current.1 + 1 < old(self).height && can_move(
                old(self).width,
                old(self).current,
                old(self).prev_direction,
                dir,
            )),
            moved ==> final(self).moves@ == old(self).moves@.push(dir),
            moved ==> final(self).current == step_pos(old(self).current, dir),
            moved ==> final(self).prev_direction == dir,
            !moved ==> final(self).moves@ == old(self).moves@,
            !moved ==> final(self).current == old(self).current,
            !moved ==> final(self).prev_direction == old(self).prev_direction,
            !moved ==> final(self).records@ == old(self).records@,
    {
        if self.current.1 + 1 >= self.height {
            return false;
        }
        let allowed = match dir {
            Direction::Down => true,
            Direction::Right => self.current.0 + 1 < self.width && self.prev_direction
                != Direction::Left,
            Direction::Left => self.current.0 > 0 && self.prev_direction != Direction::Right,
        };
        if !allowed {
            return false;
        }
        let ghost moves = self.moves@;
        let ghost start = self.start;
        let tile = if self.records.len() == 0 {
            MapTile::Entrance { pos: self.current, to: dir }
        } else {
            MapTile::Path { pos: self.current, from: self.prev_direction, to: dir }
        };
        self.records.push(tile);
        self.current = match dir {
            Direction::Down => (self.current.0, self.current.1 + 1),
            Direction::Right => (self.current.0 + 1, self.current.1),
            Direction::Left => (self.current.0 - 1, self.current.1),
        };
        self.prev_direction = dir;
        self.moves = Ghost(moves.push(dir));
        proof {
            lemma_walk_push(self.width, self.height, start, moves, dir);
        }
        true
    }

    /// Ends a walk that has reached the bottom row: its cell becomes the
    /// exit. Returns that cell and the tiles of the walk, in walk order.
    pub fn finish(self) -> (r: ((u32, u32), Vec<MapTile>))
        requires
            self.wf(),
            self.current.1 + 1 == self.height,
        ensures
            walk_complete(self.width, self.height, self.start, self.moves@),
            self.moves@.len() > 0,
            r.0 == walk_pos(self.start, self.moves@),
            r.1@ == walk_tiles(self.start, self.moves@),
    {
        proof {
            lemma_walk_cells(self.start, self.moves@);
            assert(walk_tiles(self.start, self.moves@) =~= self.records@.push(
                MapTile::Exit { pos: self.current, from: self.prev_direction },
            ));
        }
        let mut records = self.records;
        records.push(MapTile::Exit { pos: self.current, from: self.prev_direction });
        (self.current, records)
    }
}
} // verus!
