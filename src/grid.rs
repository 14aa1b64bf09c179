use vstd::prelude::*;
use vstd::arithmetic::div_mod::lemma_fundamental_div_mod_converse;

use crate::error::MapError;
use crate::tile::{pos_of, MapTile};

verus! {

/// The index of cell `p` in a row-major grid `width` columns wide.
pub open spec fn cell_index(width: u32, p: (u32, u32)) -> int {
    p.1 * width + p.0
}

/// The cell at index `k` of a row-major grid `width` columns wide.
pub open spec fn cell_at(width: u32, k: int) -> (u32, u32) {
    ((k % (width as int)) as u32, (k / (width as int)) as u32)
}

/// Whether cell `p` lies in a `width` by `height` grid.
pub open spec fn in_grid(width: u32, height: u32, p: (u32, u32)) -> bool {
    p.0 < width && p.1 < height
}

/// Whether every tile of `walk` lies in a `width` by `height` grid.
pub open spec fn walk_in_grid(width: u32, height: u32, walk: Seq<MapTile>) -> bool {
    forall|j: int| 0 <= j < walk.len() ==> in_grid(width, height, #[trigger] pos_of(walk[j]))
}

/// Every cell of a `width` by `height` grid, empty, in row-major order.
pub open spec fn empty_grid(width: u32, height: u32) -> Seq<MapTile> {
    Seq::new((width * height) as nat, |k: int| MapTile::Empty { pos: cell_at(width, k) })
}

/// `grid` with each tile of `walk`, in order, written over the cell it
/// describes.
pub open spec fn overlay(grid: Seq<MapTile>, width: u32, walk: Seq<MapTile>) -> Seq<MapTile>
    decreases walk.len(),
{
    if walk.len() == 0 {
        grid
    } else {
        let t = walk.last();
        overlay(grid, width, walk.drop_last()).update(cell_index(width, pos_of(t)), t)
    }
}

/// The grid that a walk classifies: every cell empty but those of the walk.
pub open spec fn classified(width: u32, height: u32, walk: Seq<MapTile>) -> Seq<MapTile> {
    overlay(empty_grid(width, height), width, walk)
}

/// Whether some tile of `walk` describes the cell at index `k`.
pub open spec fn covers(width: u32, walk: Seq<MapTile>, k: int) -> bool {
    exists|j: int| 0 <= j < walk.len() && cell_index(width, pos_of(walk[j])) == k
}

/// A cell of the grid has an index in it, from which the cell is read back.
pub proof fn lemma_cell_index(width: u32, height: u32, p: (u32, u32))
    requires
        in_grid(width, height, p),
    ensures
        0 <= cell_index(width, p) < width * height,
        cell_at(width, cell_index(width, p)) == p,
{
    let k = cell_index(width, p);
    assert(0 <= k < width * height) by (nonlinear_arith)
        requires
            p.0 < width,
            p.1 < height,
            k == p.1 * width + p.0,
    ;
    lemma_fundamental_div_mod_converse(k, width as int, p.1 as int, p.0 as int);
}

/// Laying a walk keeps the grid's length and leaves the cells it does not
/// cover as they were.
pub proof fn lemma_overlay_frame(grid: Seq<MapTile>, width: u32, height: u32, walk: Seq<MapTile>)
    requires
        grid.len() == width * height,
        walk_in_grid(width, height, walk),
    ensures
        overlay(grid, width, walk).len() == grid.len(),
        forall|k: int|
            0 <= k < grid.len() && !covers(width, walk, k) ==> #[trigger] overlay(
                grid,
                width,
                walk,
            )[k] == grid[k],
    decreases walk.len(),
{
    if walk.len() > 0 {
        let init = walk.drop_last();
        let t = walk.last();
        assert(pos_of(walk[walk.len() - 1]) == pos_of(t));
        lemma_cell_index(width, height, pos_of(t));
        assert forall|j: int| 0 <= j < init.len() implies in_grid(
            width,
            height,
            #[trigger] pos_of(init[j]),
        ) by {
            assert(pos_of(walk[j]) == pos_of(init[j]));
        }
        lemma_overlay_frame(grid, width, height, init);
        assert forall|k: int| 0 <= k < grid.len() && !covers(width, walk, k) implies #[trigger] overlay(
            grid,
            width,
            walk,
        )[k] == grid[k] by {
            if covers(width, init, k) {
                let j = choose|j: int|
                    0 <= j < init.len() && cell_index(width, pos_of(init[j])) == k;
                assert(walk[j] == init[j]);
            }
            assert(k != cell_index(width, pos_of(t)));
        }
    }
}

/// On the cells that a walk covers, laying it gives the same tiles whatever
/// the grid held before.
pub proof fn lemma_overlay_covered(
    g1: Seq<MapTile>,
    g2: Seq<MapTile>,
    width: u32,
    height: u32,
    walk: Seq<MapTile>,
)
    requires
        g1.len() == width * height,
        g2.len() == width * height,
        walk_in_grid(width, height, walk),
    ensures
        forall|k: int|
            0 <= k < g1.len() && covers(width, walk, k) ==> #[trigger] overlay(g1, width, walk)[k]
                == overlay(g2, width, walk)[k],
    decreases walk.len(),
{
    if walk.len() > 0 {
        let init = walk.drop_last();
        let t = walk.last();
        assert(pos_of(walk[walk.len() - 1]) == pos_of(t));
        lemma_cell_index(width, height, pos_of(t));
        assert forall|j: int| 0 <= j < init.len() implies in_grid(
            width,
            height,
            #[trigger] pos_of(init[j]),
        ) by {
            assert(pos_of(walk[j]) == pos_of(init[j]));
        }
        lemma_overlay_covered(g1, g2, width, height, init);
        lemma_overlay_frame(g1, width, height, init);
        lemma_overlay_frame(g2, width, height, init);
        assert forall|k: int| 0 <= k < g1.len() && covers(width, walk, k) implies #[trigger] overlay(
            g1,
            width,
            walk,
        )[k] == overlay(g2, width, walk)[k] by {
            if k != cell_index(width, pos_of(t)) {
                let j = choose|j: int|
                    0 <= j < walk.len() && cell_index(width, pos_of(walk[j])) == k;
                assert(init[j] == walk[j]);
                assert(covers(width, init, k));
            }
        }
    }
}

/// Where no two tiles of a walk share a cell, each tile of the walk stands in
/// its own cell once the walk is laid.
pub proof fn lemma_overlay_distinct(grid: Seq<MapTile>, width: u32, height: u32, walk: Seq<MapTile>)
    requires
        grid.len() == width * height,
        walk_in_grid(width, height, walk),
        forall|i: int, j: int|
            0 <= i < j < walk.len() ==> pos_of(#[trigger] walk[i]) != pos_of(#[trigger] walk[j]),
    ensures
        forall|j: int|
            0 <= j < walk.len() ==> overlay(grid, width, walk)[cell_index(
                width,
                pos_of(#[trigger] walk[j]),
            )] == walk[j],
    decreases walk.len(),
{
    if walk.len() > 0 {
        let init = walk.drop_last();
        let last = walk.len() - 1;
        let t = walk.last();
        assert forall|j: int| 0 <= j < init.len() implies in_grid(
            width,
            height,
            #[trigger] pos_of(init[j]),
        ) by {
            assert(pos_of(walk[j]) == pos_of(init[j]));
        }
        assert forall|i: int, j: int| 0 <= i < j < init.len() implies pos_of(#[trigger] init[i])
            != pos_of(#[trigger] init[j]) by {
            assert(walk[i] == init[i] && walk[j] == init[j]);
        }
        lemma_overlay_distinct(grid, width, height, init);
        lemma_overlay_frame(grid, width, height, init);
        assert(pos_of(walk[last]) == pos_of(t));
        lemma_cell_index(width, height, pos_of(t));
        assert forall|j: int| 0 <= j < walk.len() implies overlay(grid, width, walk)[cell_index(
            width,
            pos_of(#[trigger] walk[j]),
        )] == walk[j] by {
            if j < last {
                assert(walk[j] == init[j]);
                assert(in_grid(width, height, pos_of(walk[j])));
                lemma_cell_index(width, height, pos_of(walk[j]));
                assert(pos_of(walk[j]) != pos_of(walk[last]));
            }
        }
    }
}

/// Laying a walk again over the grid that it classified changes nothing: the
/// classification is a function of the walk alone.
pub proof fn lemma_classify_idempotent(width: u32, height: u32, walk: Seq<MapTile>)
    requires
        walk_in_grid(width, height, walk),
    ensures
        overlay(classified(width, height, walk), width, walk) == classified(width, height, walk),
{
    let g = empty_grid(width, height);
    let g1 = classified(width, height, walk);
    lemma_overlay_frame(g, width, height, walk);
    lemma_overlay_frame(g1, width, height, walk);
    lemma_overlay_covered(g1, g, width, height, walk);
    assert(overlay(g1, width, walk) =~= g1);
}

/// Every cell of a `width` by `height` grid, empty, in row-major order.
pub fn empty_tiles(width: u32, height: u32) -> (r: Vec<MapTile>)
    requires
        width * height <= usize::MAX,
    ensures
        r@ == empty_grid(width, height),
{
    let mut grid: Vec<MapTile> = Vec::new();
    let mut row: u32 = 0;
    while row < height
        invariant
            row <= height,
            grid@ == empty_grid(width, height).take(row * width),
        decreases height - row,
    {
        let mut col: u32 = 0;
        while col < width
            invariant
                row < height,
                col <= width,
                grid@ == empty_grid(width, height).take(row * width + col),
            decreases width - col,
        {
            let ghost k = row * width + col;
            proof {
                lemma_cell_index(width, height, (col, row));
            }
            grid.push(MapTile::Empty { pos: (col, row) });
            assert(grid@ =~= empty_grid(width, height).take(k + 1));
            col = col + 1;
        }
        assert((row + 1) * width == row * width + width) by (nonlinear_arith);
        row = row + 1;
    }
    assert(height * width == width * height) by (nonlinear_arith);
    assert(grid@ =~= empty_grid(width, height));
    grid
}

/// Writes each tile of `walk`, in order, over the cell of `grid` that it
/// describes; fails, leaving `grid` as it was, where a tile lies outside the
/// `width` by `height` grid.
pub fn lay_walk(grid: &mut Vec<MapTile>, width: u32, height: u32, walk: &Vec<MapTile>) -> (r:
    Result<(), MapError>)
    requires
        old(grid)@.len() == width * height,
        width * height <= usize::MAX,
    ensures
        r is Ok <==> walk_in_grid(width, height, walk@),
        r is Ok ==> final(grid)@ == overlay(old(grid)@, width, walk@),
        r is Err ==> r == Err::<(), MapError>(MapError::OutOfGrid) && final(grid)@ == old(grid)@,
{
    let mut i: usize = 0;
    while i < walk.len()
        invariant
            i <= walk.len(),
            walk_in_grid(width, height, walk@.take(i as int)),
        decreases walk.len() - i,
    {
        let p = walk[i].pos();
        if p.0 >= width || p.1 >= height {
            return Err(MapError::OutOfGrid);
        }
        assert(walk_in_grid(width, height, walk@.take(i + 1))) by {
            assert forall|j: int| 0 <= j < i + 1 implies in_grid(
                width,
                height,
                #[trigger] pos_of(walk@.take(i + 1)[j]),
            ) by {
                if j < i {
                    assert(walk@.take(i + 1)[j] == walk@.take(i as int)[j]);
                }
            }
        }
        i = i + 1;
    }
    assert(walk@.take(walk.len() as int) =~= walk@);
    let ghost start = grid@;
    let mut i: usize = 0;
    while i < walk.len()
        invariant
            i <= walk.len(),
            walk_in_grid(width, height, walk@),
            start.len() == width * height,
            width * height <= usize::MAX,
            grid@ == overlay(start, width, walk@.take(i as int)),
        decreases walk.len() - i,
    {
        let t = walk[i];
        let p = t.pos();
        proof {
            lemma_cell_index(width, height, p);
            assert(walk@.take(i + 1).drop_last() =~= walk@.take(i as int));
            assert forall|j: int| 0 <= j < i implies in_grid(
                width,
                height,
                #[trigger] pos_of(walk@.take(i as int)[j]),
            ) by {
                assert(walk@.take(i as int)[j] == walk@[j]);
            }
            lemma_overlay_frame(start, width, height, walk@.take(i as int));
            assert(p.1 * width <= cell_index(width, p));
        }
        let k: usize = (p.1 as usize) * (width as usize) + (p.0 as usize);
        grid.set(k, t);
        i = i + 1;
    }
    assert(walk@.take(walk.len() as int) =~= walk@);
    Ok(())
}

/// Classifies a walk: a row-major `width` by `height` grid of empty cells,
/// with each tile of the walk written, in order, over its own cell. Fails
/// where a tile lies outside the grid.
pub fn classify(width: u32, height: u32, walk: &Vec<MapTile>) -> (r: Result<Vec<MapTile>, MapError>)
    requires
        width * height <= usize::MAX,
    ensures
        r is Ok <==> walk_in_grid(width, height, walk@),
        r matches Ok(g) ==> g@ == classified(width, height, walk@),
        r is Err ==> r == Err::<Vec<MapTile>, MapError>(MapError::OutOfGrid),
{
    let mut grid = empty_tiles(width, height);
    match lay_walk(&mut grid, width, height, walk) {
        Ok(()) => Ok(grid),
        Err(e) => Err(e),
    }
}

} // verus!
