use vstd::prelude::*;

verus! {

/// Whether `p` lies on a `width` x `height` grid.
pub open spec fn in_bounds(p: (int, int), width: int, height: int) -> bool {
    0 <= p.0 < width && 0 <= p.1 < height
}

/// Whether `a` and `b` are distinct cells that touch by a side or a corner.
pub open spec fn adjacent(a: (int, int), b: (int, int)) -> bool {
    a != b && -1 <= a.0 - b.0 <= 1 && -1 <= a.1 - b.1 <= 1
}

/// 1 when `(x, y)` is a live cell, else 0.
pub open spec fn alive_at(cells: Set<(int, int)>, x: int, y: int) -> int {
    if cells.contains((x, y)) {
        1
    } else {
        0
    }
}

/// How many of the eight cells around `p` are alive.
pub open spec fn live_neighbours(cells: Set<(int, int)>, p: (int, int)) -> int {
    alive_at(cells, p.0 - 1, p.1 - 1) + alive_at(cells, p.0, p.1 - 1) + alive_at(
        cells,
        p.0 + 1,
        p.1 - 1,
    ) + alive_at(cells, p.0 - 1, p.1) + alive_at(cells, p.0 + 1, p.1) + alive_at(
        cells,
        p.0 - 1,
        p.1 + 1,
    ) + alive_at(cells, p.0, p.1 + 1) + alive_at(cells, p.0 + 1, p.1 + 1)
}

/// Conway's rule: a live cell stays with two or three live neighbours, a dead
/// cell is born with exactly three.
pub open spec fn survives(alive: bool, neighbours: int) -> bool {
    if alive {
        neighbours == 2 || neighbours == 3
    } else {
        neighbours == 3
    }
}

/// The live cells of the generation after `cells` on a grid with hard edges.
pub open spec fn next_cells(cells: Set<(int, int)>, width: int, height: int) -> Set<(int, int)> {
    Set::new(
        |p: (int, int)|
            in_bounds(p, width, height) && survives(cells.contains(p), live_neighbours(cells, p)),
    )
}

/// `cells` with the state of `p` flipped.
pub open spec fn toggled(cells: Set<(int, int)>, p: (int, int)) -> Set<(int, int)> {
    if cells.contains(p) {
        cells.remove(p)
    } else {
        cells.insert(p)
    }
}

/// The 2 x 2 block whose top left cell is `(x, y)`.
pub open spec fn block(x: int, y: int) -> Set<(int, int)> {
    set![(x, y), (x + 1, y), (x, y + 1), (x + 1, y + 1)]
}

/// Three cells in a row centred on `(x, y)`.
pub open spec fn horizontal_bar(x: int, y: int) -> Set<(int, int)> {
    set![(x - 1, y), (x, y), (x + 1, y)]
}

/// Three cells in a column centred on `(x, y)`.
pub open spec fn vertical_bar(x: int, y: int) -> Set<(int, int)> {
    set![(x, y - 1), (x, y), (x, y + 1)]
}

/// A cell never has more than eight live neighbours.
pub proof fn lemma_live_neighbours_bounded(cells: Set<(int, int)>, p: (int, int))
    ensures
        0 <= live_neighbours(cells, p) <= 8,
{
}

/// An empty board stays empty.
pub proof fn lemma_empty_stays_empty(width: int, height: int)
    ensures
        next_cells(Set::empty(), width, height) == Set::<(int, int)>::empty(),
{
    assert(next_cells(Set::empty(), width, height) =~= Set::<(int, int)>::empty());
}

/// A live cell without live neighbours dies, wherever it stands, edges and
/// corners included.
pub proof fn lemma_isolated_cell_dies(cells: Set<(int, int)>, p: (int, int), width: int, height: int)
    requires
        cells.contains(p),
        live_neighbours(cells, p) == 0,
    ensures
        !next_cells(cells, width, height).contains(p),
{
}

/// A lone cell on the board dies in one generation.
pub proof fn lemma_lone_cell_dies(p: (int, int), width: int, height: int)
    ensures
        next_cells(set![p], width, height) == Set::<(int, int)>::empty(),
{
    let cells = set![p];
    assert forall|q: (int, int)| !#[trigger] next_cells(cells, width, height).contains(q) by {
        if q == p {
            assert(live_neighbours(cells, q) == 0);
        } else {
            assert(live_neighbours(cells, q) <= 1);
        }
    }
    assert(next_cells(cells, width, height) =~= Set::<(int, int)>::empty());
}

/// A 2 x 2 block that fits on the board is a still life.
pub proof fn lemma_block_is_still(x: int, y: int, width: int, height: int)
    requires
        0 <= x,
        0 <= y,
        x + 1 < width,
        y + 1 < height,
    ensures
        next_cells(block(x, y), width, height) == block(x, y),
{
    let cells = block(x, y);
    assert forall|q: (int, int)|
        #[trigger] next_cells(cells, width, height).contains(q) <==> cells.contains(q) by {
        if cells.contains(q) {
            assert(live_neighbours(cells, q) == 3);
        } else {
            assert(live_neighbours(cells, q) <= 2);
        }
    }
    assert(next_cells(cells, width, height) =~= cells);
}

/// A bar of three cells away from the edges turns a quarter and back: two
/// generations restore it.
pub proof fn lemma_blinker_period_two(x: int, y: int, width: int, height: int)
    requires
        1 <= x,
        1 <= y,
        x + 1 < width,
        y + 1 < height,
    ensures
        next_cells(horizontal_bar(x, y), width, height) == vertical_bar(x, y),
        next_cells(vertical_bar(x, y), width, height) == horizontal_bar(x, y),
        next_cells(next_cells(horizontal_bar(x, y), width, height), width, height)
            == horizontal_bar(x, y),
{
    let h = horizontal_bar(x, y);
    let v = vertical_bar(x, y);
    assert forall|q: (int, int)| #[trigger] next_cells(h, width, height).contains(q) <==> v.contains(q) by {
        if v.contains(q) {
            if q == (x, y) {
                assert(live_neighbours(h, q) == 2);
            } else {
                assert(live_neighbours(h, q) == 3);
            }
        } else if h.contains(q) {
            assert(live_neighbours(h, q) == 1);
        } else {
            assert(live_neighbours(h, q) <= 2);
        }
    }
    assert(next_cells(h, width, height) =~= v);
    assert forall|q: (int, int)| #[trigger] next_cells(v, width, height).contains(q) <==> h.contains(q) by {
        if h.contains(q) {
            if q == (x, y) {
                assert(live_neighbours(v, q) == 2);
            } else {
                assert(live_neighbours(v, q) == 3);
            }
        } else if v.contains(q) {
            assert(live_neighbours(v, q) == 1);
        } else {
            assert(live_neighbours(v, q) <= 2);
        }
    }
    assert(next_cells(v, width, height) =~= h);
}

/// Flipping the same cell twice gives back the board it started from.
pub proof fn lemma_toggle_twice(cells: Set<(int, int)>, p: (int, int))
    ensures
        toggled(toggled(cells, p), p) == cells,
        toggled(cells, p).contains(p) == !cells.contains(p),
{
    assert(toggled(toggled(cells, p), p) =~= cells);
}

} // verus!
