use vstd::prelude::*;

use crate::error::MapError;
use crate::grid::{
    cell_at, cell_index, classify, classified, covers, in_grid, lemma_cell_index,
    empty_grid, lemma_overlay_distinct, lemma_overlay_frame,
};
use crate::tile::{pos_of, Direction, MapTile};
use crate::walk::{
    can_move, direction_from_draw, draw_direction, lemma_walk_cells, lemma_walk_cells_distinct,
    lemma_walk_in_grid, lemma_walk_tiles_no_reversal, lemma_walk_tiles_pos, prev_at, walk_cells,
    walk_complete, walk_pos, walk_tiles, PathWalker,
};

verus! {

/// How many random draws a walk may spend per row of the grid before it is
/// given up. A draw moves down with odds of one in three, so a walk that
/// needs more is all but impossible.
pub const DRAWS_PER_ROW: u64 = 64;

/// Relies on `rand::random::<u32>`: a draw from the thread-local generator.
/// Nothing is known of its value.
#[verifier::external_body]
fn random_u32() -> (r: u32) {
    rand::random::<u32>()
}

/// The moves taken when the directions `dirs` are tried in turn by a walk
/// from `start`: those that `can_move` allows above the bottom row; the
/// others, and all once the bottom row is reached, are stalls.
pub open spec fn taken_moves(
    width: u32,
    height: u32,
    start: (u32, u32),
    dirs: Seq<Direction>,
) -> Seq<Direction>
    decreases dirs.len(),
{
    if dirs.len() == 0 {
        Seq::empty()
    } else {
        let m = taken_moves(width, height, start, dirs.drop_last());
        let p = walk_pos(start, m);
        if p.1 + 1 < height && can_move(width, p, prev_at(m, m.len() as int), dirs.last()) {
            m.push(dirs.last())
        } else {
            m
        }
    }
}

/// The directions that `draws` pick, in turn.
pub open spec fn draws_directions(draws: Seq<u32>) -> Seq<Direction> {
    draws.map_values(|d: u32| draw_direction(d))
}

/// The moves that a walk from `start` takes on the random draws `draws`.
pub open spec fn drawn_moves(
    width: u32,
    height: u32,
    start: (u32, u32),
    draws: Seq<u32>,
) -> Seq<Direction> {
    taken_moves(width, height, start, draws_directions(draws))
}

/// `r` is what the moves `moves` from `start` give: where they reach the
/// bottom row, the exit cell and the grid that the walk classifies; where
/// they do not, `WalkUnfinished`.
pub open spec fn path_outcome(
    width: u32,
    height: u32,
    start: (u32, u32),
    moves: Seq<Direction>,
    r: Result<((u32, u32), Vec<MapTile>), MapError>,
) -> bool {
    &&& r is Ok <==> walk_pos(start, moves).1 == height - 1
    &&& r is Err ==> r == Err::<((u32, u32), Vec<MapTile>), MapError>(MapError::WalkUnfinished)
    &&& r matches Ok((end, tiles)) ==> {
        &&& walk_complete(width, height, start, moves)
        &&& end == walk_pos(start, moves)
        &&& tiles@ == classified(width, height, walk_tiles(start, moves))
    }
}

/// `r` is the map that the moves `moves` from `start` lay out where they
/// reach the bottom row, and `WalkUnfinished` where they do not.
pub open spec fn map_outcome(
    width: u32,
    height: u32,
    start: (u32, u32),
    moves: Seq<Direction>,
    r: Result<LevelMap, MapError>,
) -> bool {
    &&& r is Ok <==> walk_pos(start, moves).1 == height - 1
    &&& r is Err ==> r == Err::<LevelMap, MapError>(MapError::WalkUnfinished)
    &&& r matches Ok(m) ==> {
        &&& m.width == width
        &&& m.height == height
        &&& m.start == start
        &&& m.laid_out_by(moves)
    }
}

/// A generated level: a `width` by `height` grid, the cell where its walk
/// starts on the top row and the cell where it ends on the bottom row, and
/// one tile per cell in row-major order.
#[derive(Debug)]
pub struct LevelMap {
    pub width: u32,
    pub height: u32,
    pub start: (u32, u32),
    pub end: (u32, u32),
    pub map_tiles: Vec<MapTile>,
}

impl Clone for LevelMap {
    fn clone(&self) -> (r: LevelMap)
        ensures
            r.width == self.width,
            r.height == self.height,
            r.start == self.start,
            r.end == self.end,
            r.map_tiles@ == self.map_tiles@,
    {
        LevelMap {
            width: self.width,
            height: self.height,
            start: self.start,
            end: self.end,
            map_tiles: self.map_tiles.clone(),
        }
    }
}

impl LevelMap {
    /// The map is the one that the walk `moves` from `start` lays out.
    pub open spec fn laid_out_by(&self, moves: Seq<Direction>) -> bool {
        &&& walk_complete(self.width, self.height, self.start, moves)
        &&& self.end == walk_pos(self.start, moves)
        &&& self.map_tiles@ == classified(self.width, self.height, walk_tiles(self.start, moves))
    }

    /// The map is laid out by some walk.
    pub open spec fn wf(&self) -> bool {
        exists|moves: Seq<Direction>| self.laid_out_by(moves)
    }

    /// Generates a map with a random start on the top row and a random walk
    /// down to the bottom row, on `DRAWS_PER_ROW` draws per row. Fails where
    /// the grid is narrower than one column or lower than two rows, and where
    /// the walk has not reached the bottom row on those draws.
    pub fn new(width: u32, height: u32) -> (r: Result<LevelMap, MapError>)
        requires
            width * height <= usize::MAX,
        ensures
            (width == 0 || height < 2) ==> r == Err::<LevelMap, MapError>(MapError::InvalidConfig),
            (width >= 1 && height >= 2) ==> exists|start_draw: u32, draws: Seq<u32>|
                {
                    &&& draws.len() == DRAWS_PER_ROW * height
                    &&& #[trigger] map_outcome(
                        width,
                        height,
                        ((start_draw % width) as u32, 0u32),
                        drawn_moves(width, height, ((start_draw % width) as u32, 0u32), draws),
                        r,
                    )
                },
    {
        if width == 0 || height < 2 {
            return Err(MapError::InvalidConfig);
        }
        let start_draw = random_u32();
        let draws = random_draws(DRAWS_PER_ROW * (height as u64));
        LevelMap::from_draws(width, height, start_draw, &draws)
    }

    /// The map that the random draws lay out: the start is column
    /// `start_draw % width` of the top row, and the walk takes the direction
    /// that each of `draws` picks in turn. Fails where the grid is narrower
    /// than one column or lower than two rows, and where the walk does not
    /// reach the bottom row on those draws.
    pub fn from_draws(width: u32, height: u32, start_draw: u32, draws: &Vec<u32>) -> (r: Result<
        LevelMap,
        MapError,
    >)
        requires
            width * height <= usize::MAX,
        ensures
            (width == 0 || height < 2) ==> r == Err::<LevelMap, MapError>(MapError::InvalidConfig),
            (width >= 1 && height >= 2) ==> map_outcome(
                width,
                height,
                ((start_draw % width) as u32, 0u32),
                drawn_moves(width, height, ((start_draw % width) as u32, 0u32), draws@),
                r,
            ),
    {
        if width == 0 || height < 2 {
            return Err(MapError::InvalidConfig);
        }
        let start: (u32, u32) = (start_draw % width, 0);
        let r = walk_from_draws(width, height, start, draws);
        LevelMap::from_path(width, height, start, r, Ghost(drawn_moves(width, height, start, draws@)))
    }

    /// The map that the directions `dirs`, tried in turn, lay out from
    /// column `start_col` of the top row. Fails where the grid is narrower
    /// than one column or lower than two rows or the start lies off it, and
    /// where the moves taken do not reach the bottom row.
    pub fn from_moves(width: u32, height: u32, start_col: u32, dirs: &Vec<Direction>) -> (r:
        Result<LevelMap, MapError>)
        requires
            width * height <= usize::MAX,
        ensures
            (width == 0 || height < 2 || start_col >= width) ==> r == Err::<LevelMap, MapError>(
                MapError::InvalidConfig,
            ),
            (width >= 1 && height >= 2 && start_col < width) ==> map_outcome(
                width,
                height,
                (start_col, 0u32),
                taken_moves(width, height, (start_col, 0u32), dirs@),
                r,
            ),
    {
        if width == 0 || height < 2 || start_col >= width {
            return Err(MapError::InvalidConfig);
        }
        let start: (u32, u32) = (start_col, 0);
        let r = walk_moves(width, height, start, dirs);
        LevelMap::from_path(width, height, start, r, Ghost(taken_moves(width, height, start, dirs@)))
    }

    /// Bundles the outcome of a walk from `start` into a map.
    fn from_path(
        width: u32,
        height: u32,
        start: (u32, u32),
        path: Result<((u32, u32), Vec<MapTile>), MapError>,
        moves: Ghost<Seq<Direction>>,
    ) -> (r: Result<LevelMap, MapError>)
        requires
            path_outcome(width, height, start, moves@, path),
        ensures
            map_outcome(width, height, start, moves@, r),
    {
        match path {
            Ok((end, map_tiles)) => Ok(LevelMap { width, height, start, end, map_tiles }),
            Err(e) => Err(e),
        }
    }

    /// Replaces the tiles of the map.
    pub fn add_path(&mut self, map_tiles: Vec<MapTile>)
        ensures
            final(self).map_tiles@ == map_tiles@,
            final(self).width == old(self).width,
            final(self).height == old(self).height,
            final(self).start == old(self).start,
            final(self).end == old(self).end,
    {
        self.map_tiles = map_tiles;
    }
}

/// The grid that a finished walk classifies: each tile of the walk in the
/// cell it describes, every other cell empty.
proof fn lemma_walk_grid(width: u32, height: u32, start: (u32, u32), moves: Seq<Direction>)
    requires
        walk_complete(width, height, start, moves),
    ensures
        moves.len() > 0,
        walk_cells(start, moves).len() == moves.len() + 1,
        walk_cells(start, moves)[0] == start,
        walk_cells(start, moves)[moves.len() as int] == walk_pos(start, moves),
        classified(width, height, walk_tiles(start, moves)).len() == width * height,
        forall|t: int|
            0 <= t <= moves.len() ==> {
                let c = #[trigger] walk_cells(start, moves)[t];
                &&& in_grid(width, height, c)
                &&& 0 <= cell_index(width, c) < width * height
                &&& cell_at(width, cell_index(width, c)) == c
                &&& classified(width, height, walk_tiles(start, moves))[cell_index(width, c)]
                    == walk_tiles(start, moves)[t]
                &&& pos_of(walk_tiles(start, moves)[t]) == c
            },
        forall|k: int|
            0 <= k < width * height && !covers(width, walk_tiles(start, moves), k)
                ==> #[trigger] classified(width, height, walk_tiles(start, moves))[k]
                == (MapTile::Empty { pos: cell_at(width, k) }),
{
    let tiles = walk_tiles(start, moves);
    let cells = walk_cells(start, moves);
    lemma_walk_cells(start, moves);
    if moves.len() == 0 {
        assert(walk_pos(start, moves) == cells[0]);
    }
    lemma_walk_in_grid(width, height, start, moves, moves.len() as int);
    lemma_walk_cells_distinct(width, height, start, moves);
    lemma_walk_tiles_pos(start, moves);
    assert forall|j: int| 0 <= j < tiles.len() implies in_grid(
        width,
        height,
        #[trigger] pos_of(tiles[j]),
    ) by {
        assert(pos_of(tiles[j]) == cells[j]);
    }
    assert forall|i: int, j: int| 0 <= i < j < tiles.len() implies pos_of(#[trigger] tiles[i])
        != pos_of(#[trigger] tiles[j]) by {
        assert(cells[i] != cells[j]);
    }
    let empty = empty_grid(width, height);
    lemma_overlay_distinct(empty, width, height, tiles);
    lemma_overlay_frame(empty, width, height, tiles);
    assert forall|t: int| 0 <= t <= moves.len() implies {
        let c = #[trigger] cells[t];
        &&& in_grid(width, height, c)
        &&& 0 <= cell_index(width, c) < width * height
        &&& cell_at(width, cell_index(width, c)) == c
        &&& classified(width, height, tiles)[cell_index(width, c)] == tiles[t]
        &&& pos_of(tiles[t]) == c
    } by {
        lemma_cell_index(width, height, cells[t]);
        assert(pos_of(tiles[t]) == cells[t]);
    }
}

/// The tile in cell `k` of a laid-out map: empty, or tile `t` of its walk,
/// which describes that cell.
proof fn lemma_map_cell(m: LevelMap, moves: Seq<Direction>, k: int) -> (t: int)
    requires
        m.laid_out_by(moves),
        0 <= k < m.width * m.height,
    ensures
        t == -1 ==> m.map_tiles@[k] == (MapTile::Empty { pos: cell_at(m.width, k) }),
        t != -1 ==> 0 <= t <= moves.len() && k == cell_index(
            m.width,
            walk_cells(m.start, moves)[t],
        ) && m.map_tiles@[k] == walk_tiles(m.start, moves)[t],
{
    let tiles = walk_tiles(m.start, moves);
    lemma_walk_grid(m.width, m.height, m.start, moves);
    if covers(m.width, tiles, k) {
        let t = choose|j: int| 0 <= j < tiles.len() && cell_index(m.width, pos_of(tiles[j])) == k;
        assert(walk_cells(m.start, moves)[t] == pos_of(tiles[t]));
        t
    } else {
        -1
    }
}

/// A laid-out map has one tile per cell of its grid, in row-major order:
/// the tile at index `k` describes the cell at index `k`.
pub proof fn lemma_map_tile_count(m: LevelMap)
    requires
        m.wf(),
    ensures
        m.map_tiles@.len() == m.width * m.height,
        forall|k: int|
            0 <= k < m.map_tiles@.len() ==> pos_of(#[trigger] m.map_tiles@[k]) == cell_at(
                m.width,
                k,
            ),
{
    let moves = choose|moves: Seq<Direction>| m.laid_out_by(moves);
    lemma_walk_grid(m.width, m.height, m.start, moves);
    assert forall|k: int| 0 <= k < m.map_tiles@.len() implies pos_of(
        #[trigger] m.map_tiles@[k],
    ) == cell_at(m.width, k) by {
        let t = lemma_map_cell(m, moves, k);
        if t != -1 {
            assert(walk_cells(m.start, moves)[t] == walk_cells(m.start, moves)[t]);
        }
    }
}

/// A laid-out map has exactly one entrance, in the start cell, and exactly
/// one exit, in the end cell.
pub proof fn lemma_map_single_entrance_exit(m: LevelMap)
    requires
        m.wf(),
    ensures
        in_grid(m.width, m.height, m.start),
        in_grid(m.width, m.height, m.end),
        forall|k: int|
            0 <= k < m.map_tiles@.len() ==> (#[trigger] m.map_tiles@[k] is Entrance <==> k
                == cell_index(m.width, m.start)),
        forall|k: int|
            0 <= k < m.map_tiles@.len() ==> (#[trigger] m.map_tiles@[k] is Exit <==> k
                == cell_index(m.width, m.end)),
{
    let moves = choose|moves: Seq<Direction>| m.laid_out_by(moves);
    let cells = walk_cells(m.start, moves);
    let n = moves.len() as int;
    lemma_walk_grid(m.width, m.height, m.start, moves);
    lemma_walk_cells_distinct(m.width, m.height, m.start, moves);
    assert(cells[0] == cells[0] && cells[n] == cells[n]);
    assert forall|k: int| 0 <= k < m.map_tiles@.len() implies (#[trigger] m.map_tiles@[k] is Entrance
        <==> k == cell_index(m.width, m.start)) && (m.map_tiles@[k] is Exit <==> k == cell_index(
        m.width,
        m.end,
    )) by {
        let t = lemma_map_cell(m, moves, k);
        if t != -1 {
            assert(cells[t] == cells[t]);
            if t != 0 {
                assert(cells[t] != cells[0]);
            }
            if t != n {
                assert(cells[t] != cells[n]);
            }
        }
    }
}

/// In a laid-out map the walk starts on the top row and ends on the bottom
/// row: the entrance describes the start cell and the exit the end cell.
pub proof fn lemma_map_row_bounds(m: LevelMap)
    requires
        m.wf(),
    ensures
        m.start.1 == 0,
        m.end.1 == m.height - 1,
        forall|k: int|
            0 <= k < m.map_tiles@.len() && #[trigger] m.map_tiles@[k] is Entrance ==> pos_of(
                m.map_tiles@[k],
            ) == m.start,
        forall|k: int|
            0 <= k < m.map_tiles@.len() && #[trigger] m.map_tiles@[k] is Exit ==> pos_of(
                m.map_tiles@[k],
            ) == m.end,
{
    let moves = choose|moves: Seq<Direction>| m.laid_out_by(moves);
    let cells = walk_cells(m.start, moves);
    let n = moves.len() as int;
    lemma_walk_grid(m.width, m.height, m.start, moves);
    assert forall|k: int| 0 <= k < m.map_tiles@.len() && #[trigger] m.map_tiles@[k] is Entrance
        || 0 <= k < m.map_tiles@.len() && m.map_tiles@[k] is Exit implies (m.map_tiles@[k] is Entrance
        ==> pos_of(m.map_tiles@[k]) == m.start) && (m.map_tiles@[k] is Exit ==> pos_of(
        m.map_tiles@[k],
    ) == m.end) by {
        let t = lemma_map_cell(m, moves, k);
        assert(cells[t] == cells[t]);
    }
}

/// Every tile of a laid-out map but the empty ones lies in a column of the
/// grid.
pub proof fn lemma_map_column_bounds(m: LevelMap)
    requires
        m.wf(),
    ensures
        forall|k: int|
            0 <= k < m.map_tiles@.len() && !(#[trigger] m.map_tiles@[k] is Empty) ==> pos_of(
                m.map_tiles@[k],
            ).0 < m.width,
{
    let moves = choose|moves: Seq<Direction>| m.laid_out_by(moves);
    let cells = walk_cells(m.start, moves);
    lemma_walk_grid(m.width, m.height, m.start, moves);
    assert forall|k: int| 0 <= k < m.map_tiles@.len() && !(#[trigger] m.map_tiles@[k] is Empty) implies pos_of(
        m.map_tiles@[k],
    ).0 < m.width by {
        let t = lemma_map_cell(m, moves, k);
        assert(cells[t] == cells[t]);
    }
}

/// The walk of a laid-out map never turns straight back: no path tile is
/// entered going one way sideways and left going the other.
pub proof fn lemma_map_no_reversal(m: LevelMap)
    requires
        m.wf(),
    ensures
        forall|k: int|
            0 <= k < m.map_tiles@.len() ==> (#[trigger] m.map_tiles@[k] matches MapTile::Path {
                from,
                to,
                ..
            } ==> !(from == Direction::Left && to == Direction::Right) && !(from
                == Direction::Right && to == Direction::Left)),
{
    let moves = choose|moves: Seq<Direction>| m.laid_out_by(moves);
    lemma_walk_grid(m.width, m.height, m.start, moves);
    lemma_walk_tiles_no_reversal(m.width, m.height, m.start, moves);
    assert forall|k: int| 0 <= k < m.map_tiles@.len() implies (#[trigger] m.map_tiles@[k] matches MapTile::Path {
        from,
        to,
        ..
    } ==> !(from == Direction::Left && to == Direction::Right) && !(from == Direction::Right && to
        == Direction::Left)) by {
        let t = lemma_map_cell(m, moves, k);
    }
}

/// Ends a walk that has reached the bottom row and classifies the grid:
/// returns the exit cell and the tiles of every cell.
fn lay_out(walker: PathWalker) -> (r: ((u32, u32), Vec<MapTile>))
    requires
        walker.wf(),
        walker.current.1 + 1 == walker.height,
        walker.width * walker.height <= usize::MAX,
    ensures
        walk_complete(walker.width, walker.height, walker.start, walker.moves@),
        r.0 == walk_pos(walker.start, walker.moves@),
        r.1@ == classified(walker.width, walker.height, walk_tiles(walker.start, walker.moves@)),
{
    let ghost moves = walker.moves@;
    let ghost start = walker.start;
    let width = walker.width;
    let height = walker.height;
    let (end, walk) = walker.finish();
    proof {
        lemma_walk_in_grid(width, height, start, moves, moves.len() as int);
        lemma_walk_tiles_pos(start, moves);
        assert forall|j: int| 0 <= j < walk@.len() implies in_grid(
            width,
            height,
            #[trigger] pos_of(walk@[j]),
        ) by {
            assert(pos_of(walk_tiles(start, moves)[j]) == walk_cells(start, moves)[j]);
        }
    }
    match classify(width, height, &walk) {
        Ok(grid) => (end, grid),
        // every cell of the walk lies in the grid, so classifying cannot fail
        Err(_) => (end, walk),
    }
}

/// `count` random draws.
fn random_draws(count: u64) -> (r: Vec<u32>)
    ensures
        r@.len() == count,
{
    let mut draws: Vec<u32> = Vec::new();
    let mut n: u64 = 0;
    while n < count
        invariant
            n <= count,
            draws@.len() == n,
        decreases count - n,
    {
        draws.push(random_u32());
        n = n + 1;
    }
    draws
}

/// The directions that `draws` pick, in turn.
fn directions_of(draws: &Vec<u32>) -> (r: Vec<Direction>)
    ensures
        r@ == draws_directions(draws@),
{
    let mut dirs: Vec<Direction> = Vec::new();
    let mut i: usize = 0;
    while i < draws.len()
        invariant
            i <= draws.len(),
            dirs@ == draws_directions(draws@.take(i as int)),
        decreases draws.len() - i,
    {
        dirs.push(direction_from_draw(draws[i]));
        assert(dirs@ =~= draws_directions(draws@.take(i + 1)));
        i = i + 1;
    }
    assert(draws@.take(draws.len() as int) =~= draws@);
    dirs
}

/// The walk from `start` that tries the directions `dirs` in turn: where it
/// reaches the bottom row, its exit cell and the grid it classifies; where
/// it does not, `WalkUnfinished`.
pub fn walk_moves(width: u32, height: u32, start: (u32, u32), dirs: &Vec<Direction>) -> (r: Result<
    ((u32, u32), Vec<MapTile>),
    MapError,
>)
    requires
        height >= 2,
        start.0 < width,
        start.1 == 0,
        width * height <= usize::MAX,
    ensures
        path_outcome(width, height, start, taken_moves(width, height, start, dirs@), r),
{
    let mut walker = PathWalker::new(width, height, start);
    let mut i: usize = 0;
    while i < dirs.len()
        invariant
            i <= dirs.len(),
            walker.wf(),
            walker.width == width,
            walker.height == height,
            walker.start == start,
            walker.moves@ == taken_moves(width, height, start, dirs@.take(i as int)),
        decreases dirs.len() - i,
    {
        proof {
            assert(dirs@.take(i + 1).drop_last() =~= dirs@.take(i as int));
        }
        walker.step(dirs[i]);
        i = i + 1;
    }
    assert(dirs@.take(dirs.len() as int) =~= dirs@);
    if !walker.is_done() {
        return Err(MapError::WalkUnfinished);
    }
    Ok(lay_out(walker))
}

/// The walk from `start` on the random draws `draws`: each picks a direction
/// that the walk tries in turn. Where it reaches the bottom row, returns its
/// exit cell and the grid it classifies; where it does not, `WalkUnfinished`.
pub fn walk_from_draws(width: u32, height: u32, start: (u32, u32), draws: &Vec<u32>) -> (r:
    Result<((u32, u32), Vec<MapTile>), MapError>)
    requires
        height >= 2,
        start.0 < width,
        start.1 == 0,
        width * height <= usize::MAX,
    ensures
        path_outcome(width, height, start, drawn_moves(width, height, start, draws@), r),
{
    let dirs = directions_of(draws);
    walk_moves(width, height, start, &dirs)
}

/// Generates the tiles of a map from `start` on the top row: a random walk
/// on `DRAWS_PER_ROW` draws per row, classified onto the grid. Returns the
/// exit cell and the tiles, or `WalkUnfinished` where the walk has not
/// reached the bottom row on those draws.
pub fn generate_main_path(width: u32, height: u32, start: (u32, u32)) -> (r: Result<
    ((u32, u32), Vec<MapTile>),
    MapError,
>)
    requires
        height >= 2,
        start.0 < width,
        start.1 == 0,
        width * height <= usize::MAX,
    ensures
        exists|draws: Seq<u32>|
            {
                &&& draws.len() == DRAWS_PER_ROW * height
                &&& #[trigger] path_outcome(
                    width,
                    height,
                    start,
                    drawn_moves(width, height, start, draws),
                    r,
                )
            },
{
    let draws = random_draws(DRAWS_PER_ROW * (height as u64));
    walk_from_draws(width, height, start, &draws)
}

/// The same moves from the same start give the same outcome: the exit cell
/// and the grid are functions of the walk alone.
pub proof fn lemma_path_outcome_unique(
    width: u32,
    height: u32,
    start: (u32, u32),
    moves: Seq<Direction>,
    r1: Result<((u32, u32), Vec<MapTile>), MapError>,
    r2: Result<((u32, u32), Vec<MapTile>), MapError>,
)
    requires
        path_outcome(width, height, start, moves, r1),
        path_outcome(width, height, start, moves, r2),
    ensures
        r1 is Ok <==> r2 is Ok,
        r1 is Err ==> r1 == r2,
        r1 matches Ok((end1, tiles1)) ==> r2 matches Ok((end2, tiles2)) && end1 == end2
            && tiles1@ == tiles2@,
{
}

} // verus!
