//! The update rule of the automaton: cell states, bounded (non-toroidal)
//! neighbor counting over a rectangular grid stored row-major, and the
//! birth/death/decay transition applied to every cell on each tick.

use vstd::prelude::*;

verus! {

/// State of one grid cell. A cell has no identity beyond its coordinate.
#[derive(Clone, Copy, Debug, PartialEq, Eq, Structural)]
pub enum CellState {
    Alive,
    Dead,
}

/// The ways a call into the simulation core can be rejected. Every rejected
/// call leaves the prior state unchanged.
#[derive(Clone, Copy, Debug, PartialEq, Eq, Structural)]
pub enum WorldError {
    /// A coordinate outside `[0, width) x [0, height)`.
    OutOfBounds,
    /// A render buffer whose length is not `width * height * 4`.
    SizeMismatch,
    /// A grid dimension that is zero, or an area too large for a pixel buffer.
    InvalidDimensions,
}

/// Whether `(x, y)` lies on a `w x h` grid.
pub open spec fn in_bounds(w: int, h: int, x: int, y: int) -> bool {
    0 <= x < w && 0 <= y < h
}

/// Whether the cell at `(x, y)` of the row-major grid `g` is alive.
/// A coordinate outside the grid counts as dead: edges do not wrap.
pub open spec fn alive_at(g: Seq<CellState>, w: int, h: int, x: int, y: int) -> bool {
    in_bounds(w, h, x, y) && g[y * w + x] == CellState::Alive
}

/// One term of the neighbor count: 1 if the cell at `(x, y)` is alive, else 0.
pub open spec fn alive_one(g: Seq<CellState>, w: int, h: int, x: int, y: int) -> int {
    if alive_at(g, w, h, x, y) {
        1
    } else {
        0
    }
}

/// Number of live cells among the up-to-8 neighbors of `(x, y)`. Neighbor
/// coordinates that fall outside the grid are excluded, so an edge cell has at
/// most 5 live neighbors and a corner cell at most 3.
pub open spec fn neighbor_count(g: Seq<CellState>, w: int, h: int, x: int, y: int) -> int {
    alive_one(g, w, h, x - 1, y - 1) + alive_one(g, w, h, x, y - 1) + alive_one(
        g,
        w,
        h,
        x + 1,
        y - 1,
    ) + alive_one(g, w, h, x - 1, y) + alive_one(g, w, h, x + 1, y) + alive_one(
        g,
        w,
        h,
        x - 1,
        y + 1,
    ) + alive_one(g, w, h, x, y + 1) + alive_one(g, w, h, x + 1, y + 1)
}

/// Next state of a cell whose current state is `cur` and whose live-neighbor
/// count is `n`: a live cell survives with 2 or 3 live neighbors, a dead cell
/// is born with exactly 3, every other cell is dead next generation.
pub open spec fn next_state(cur: CellState, n: int) -> CellState {
    match cur {
        CellState::Alive => if n < 2 || n > 3 {
            CellState::Dead
        } else {
            CellState::Alive
        },
        CellState::Dead => if n == 3 {
            CellState::Alive
        } else {
            CellState::Dead
        },
    }
}

/// Next decay intensity of a cell: a cell that dies this tick flashes to
/// `decay_max`; a cell that stays dead fades by `decay_step`, clamped at 0;
/// a cell that lives on (or is born) keeps its intensity unchanged.
pub open spec fn next_decay(cur: CellState, n: int, d: u8, decay_max: u8, decay_step: u8) -> u8 {
    match cur {
        CellState::Alive => if n < 2 || n > 3 {
            decay_max
        } else {
            d
        },
        CellState::Dead => if n == 3 {
            d
        } else if d >= decay_step {
            (d - decay_step) as u8
        } else {
            0u8
        },
    }
}

/// The opposite state: Alive for Dead, Dead for Alive.
pub open spec fn flipped(s: CellState) -> CellState {
    match s {
        CellState::Alive => CellState::Dead,
        CellState::Dead => CellState::Alive,
    }
}

/// The grid `g` with the cell at linear index `i` flipped.
pub open spec fn toggled(g: Seq<CellState>, i: int) -> Seq<CellState> {
    g.update(i, flipped(g[i]))
}

/// The neighbor count is never negative and never above 8.
pub proof fn lemma_neighbor_count_range(g: Seq<CellState>, w: int, h: int, x: int, y: int)
    ensures
        0 <= neighbor_count(g, w, h, x, y) <= 8,
{
}

/// A corner cell counts neighbors only among its 3 valid adjacent
/// coordinates: for `(0, 0)` these are `(1, 0)`, `(0, 1)` and `(1, 1)`,
/// so its count never exceeds 3.
pub proof fn lemma_corner_neighbor_count(g: Seq<CellState>, w: int, h: int)
    requires
        w >= 1,
        h >= 1,
    ensures
        neighbor_count(g, w, h, 0, 0) == alive_one(g, w, h, 1, 0) + alive_one(g, w, h, 0, 1)
            + alive_one(g, w, h, 1, 1),
        0 <= neighbor_count(g, w, h, 0, 0) <= 3,
{
}

/// A cell on the left edge, away from both corners, counts neighbors only
/// among its 5 valid adjacent coordinates, so its count never exceeds 5.
pub proof fn lemma_left_edge_neighbor_count(g: Seq<CellState>, w: int, h: int, y: int)
    requires
        w >= 1,
        0 < y < h - 1,
    ensures
        neighbor_count(g, w, h, 0, y) == alive_one(g, w, h, 0, y - 1) + alive_one(g, w, h, 1, y - 1)
            + alive_one(g, w, h, 1, y) + alive_one(g, w, h, 0, y + 1) + alive_one(
            g,
            w,
            h,
            1,
            y + 1,
        ),
        0 <= neighbor_count(g, w, h, 0, y) <= 5,
{
}

/// Toggling flips exactly the chosen cell and leaves every other cell as it
/// was; toggling the same cell twice restores the grid it started from.
pub proof fn lemma_toggle_round_trip(g: Seq<CellState>, i: int)
    requires
        0 <= i < g.len(),
    ensures
        toggled(g, i)[i] == flipped(g[i]),
        forall|j: int| 0 <= j < g.len() && j != i ==> toggled(g, i)[j] == g[j],
        toggled(toggled(g, i), i) == g,
{
    assert(flipped(flipped(g[i])) == g[i]);
    assert(toggled(toggled(g, i), i) =~= g);
}

} // verus!
