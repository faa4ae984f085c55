//! The simulation core: double-buffered grid storage, bounds-checked cell
//! access, generation of fresh grids, the per-tick update pass, and the
//! mapping from cell and decay state to RGBA pixels.

use rand::Rng;
use vstd::arithmetic::div_mod::lemma_fundamental_div_mod_converse;
use vstd::prelude::*;

use crate::rules::CellState;
use crate::rules::WorldError;
use crate::rules::alive_at;
use crate::rules::in_bounds;
use crate::rules::neighbor_count;
use crate::rules::next_decay;
use crate::rules::next_state;

verus! {

/// A linear (row-major) index `y * w + x` of an in-bounds coordinate lies
/// within the grid's area, and the coordinate can be recovered from it by
/// division and remainder.
pub proof fn lemma_index_in_area(w: int, h: int, x: int, y: int)
    requires
        0 <= x < w,
        0 <= y < h,
    ensures
        0 <= y * w + x < w * h,
        (y * w + x) % w == x,
        (y * w + x) / w == y,
{
    assert(0 <= y * w + x < w * h) by (nonlinear_arith)
        requires
            0 <= x < w,
            0 <= y < h,
    ;
    lemma_fundamental_div_mod_converse(y * w + x, w, y, x);
}

/// On a grid with at least one row and one column, neither dimension exceeds
/// the area.
pub proof fn lemma_dims_at_most_area(w: int, h: int)
    requires
        1 <= w,
        1 <= h,
    ensures
        w <= w * h,
        h <= w * h,
{
    assert(w <= w * h && h <= w * h) by (nonlinear_arith)
        requires
            1 <= w,
            1 <= h,
    ;
}

/// The simulation state: a rectangular grid of cells held double-buffered
/// (`cells` is read during a tick, `scratch_cells` is written, then the two
/// are swapped), plus one decay intensity byte per cell driving the rendered
/// afterglow of recently dead cells. All three buffers are row-major with
/// linear index `y * width + x` and always share the same dimensions.
#[derive(Debug)]
pub struct World {
    /// Number of columns; coordinates satisfy `0 <= x < width`.
    pub width: usize,
    /// Number of rows; coordinates satisfy `0 <= y < height`.
    pub height: usize,
    /// Intensity given to a cell the moment it dies.
    pub decay_max: u8,
    /// Amount the intensity of a cell that stays dead fades per tick.
    pub decay_step: u8,
    /// The active buffer: the generation that is read and rendered.
    pub cells: Vec<CellState>,
    /// The scratch buffer: the next generation is written here during a tick.
    pub scratch_cells: Vec<CellState>,
    /// Per-cell decay intensity, addressed like the cell buffers.
    pub saturation: Vec<u8>,
}

impl World {
    /// Number of cells in the grid.
    pub open spec fn area(self) -> int {
        self.width * self.height
    }

    /// Well-formedness: both dimensions are positive, the area leaves room
    /// for a 4-byte pixel per cell in a `usize`-indexed buffer, and all three
    /// parallel buffers have exactly one entry per cell.
    pub open spec fn wf(self) -> bool {
        &&& 1 <= self.width
        &&& 1 <= self.height
        &&& self.area() <= usize::MAX as int / 4
        &&& self.cells@.len() == self.area()
        &&& self.scratch_cells@.len() == self.area()
        &&& self.saturation@.len() == self.area()
    }

    /// Creates a world of `width x height` cells, all dead, with every decay
    /// intensity 0. `decay_max` is the intensity a cell flashes to when it
    /// dies and `decay_step` the per-tick fade while it stays dead. Rejects
    /// dimensions that are zero or whose pixel buffer would not fit in memory.
    pub fn new(width: usize, height: usize, decay_max: u8, decay_step: u8) -> (r: Result<
        World,
        WorldError,
    >)
        ensures
            match r {
                Ok(w) => {
                    &&& 1 <= width
                    &&& 1 <= height
                    &&& width * height <= usize::MAX as int / 4
                    &&& w.wf()
                    &&& w.width == width
                    &&& w.height == height
                    &&& w.decay_max == decay_max
                    &&& w.decay_step == decay_step
                    &&& w.cells@ == Seq::new((width * height) as nat, |i: int| CellState::Dead)
                    &&& w.scratch_cells@ == Seq::new(
                        (width * height) as nat,
                        |i: int| CellState::Dead,
                    )
                    &&& w.saturation@ == Seq::new((width * height) as nat, |i: int| 0u8)
                },
                Err(e) => {
                    &&& e == WorldError::InvalidDimensions
                    &&& (width == 0 || height == 0 || width * height > usize::MAX as int / 4)
                },
            },
    {
        if width == 0 || height == 0 {
            return Err(WorldError::InvalidDimensions);
        }
        let area = match width.checked_mul(height) {
            Some(a) => a,
            None => {
                return Err(WorldError::InvalidDimensions);
            },
        };
        if area > usize::MAX / 4 {
            return Err(WorldError::InvalidDimensions);
        }
        Ok(
            World {
                width,
                height,
                decay_max,
                decay_step,
                cells: filled_cells(area, CellState::Dead),
                scratch_cells: filled_cells(area, CellState::Dead),
                saturation: filled_bytes(area, 0),
            },
        )
    }

    /// The active buffer a tick computes from the current one: the cell at
    /// linear index `i` becomes `next_state` of its current state and its
    /// live-neighbor count in the current active buffer.
    pub open spec fn next_cells_spec(self) -> Seq<CellState> {
        Seq::new(
            self.area() as nat,
            |i: int|
                next_state(
                    self.cells@[i],
                    neighbor_count(
                        self.cells@,
                        self.width as int,
                        self.height as int,
                        i % (self.width as int),
                        i / (self.width as int),
                    ),
                ),
        )
    }

    /// The decay intensities a tick computes: the entry at linear index `i`
    /// becomes `next_decay` of the cell's current state, its live-neighbor
    /// count, and its current intensity.
    pub open spec fn next_sat_spec(self) -> Seq<u8> {
        Seq::new(
            self.area() as nat,
            |i: int|
                next_decay(
                    self.cells@[i],
                    neighbor_count(
                        self.cells@,
                        self.width as int,
                        self.height as int,
                        i % (self.width as int),
                        i / (self.width as int),
                    ),
                    self.saturation@[i],
                    self.decay_max,
                    self.decay_step,
                ),
        )
    }

    /// Exchanges the roles of the active and the scratch buffer in O(1) by
    /// swapping the two handles; no element is copied and the decay
    /// intensities are untouched.
    pub fn swap_buffers(&mut self)
        ensures
            final(self).cells == old(self).scratch_cells,
            final(self).scratch_cells == old(self).cells,
            final(self).width == old(self).width,
            final(self).height == old(self).height,
            final(self).decay_max == old(self).decay_max,
            final(self).decay_step == old(self).decay_step,
            final(self).saturation == old(self).saturation,
    {
        std::mem::swap(&mut self.cells, &mut self.scratch_cells);
    }

    /// Advances the simulation by one generation. For every cell the rule is
    /// evaluated against one consistent snapshot (the active buffer), the next
    /// state is written to the scratch buffer, the decay intensity is updated
    /// in place, and the buffers are swapped exactly once at the end; the old
    /// active generation survives as the new scratch buffer.
    pub fn update(&mut self)
        requires
            old(self).wf(),
        ensures
            final(self).wf(),
            final(self).width == old(self).width,
            final(self).height == old(self).height,
            final(self).decay_max == old(self).decay_max,
            final(self).decay_step == old(self).decay_step,
            final(self).cells@ == old(self).next_cells_spec(),
            final(self).saturation@ == old(self).next_sat_spec(),
            final(self).scratch_cells@ == old(self).cells@,
    {
        let ghost orig = *self;
        let w = self.width;
        let h = self.height;
        let mut y: usize = 0;
        let mut i: usize = 0;
        while y < h
            invariant
                orig.wf(),
                w == orig.width,
                h == orig.height,
                self.width == orig.width,
                self.height == orig.height,
                self.decay_max == orig.decay_max,
                self.decay_step == orig.decay_step,
                self.cells@ == orig.cells@,
                self.scratch_cells@.len() == orig.area(),
                self.saturation@.len() == orig.area(),
                y <= h,
                i == y * w,
                forall|j: int| 0 <= j < i ==> self.scratch_cells@[j] == orig.next_cells_spec()[j],
                forall|j: int| 0 <= j < i ==> self.saturation@[j] == orig.next_sat_spec()[j],
                forall|j: int| i <= j < orig.area() ==> self.saturation@[j] == orig.saturation@[j],
            decreases h - y,
        {
            let mut x: usize = 0;
            while x < w
                invariant
                    orig.wf(),
                    w == orig.width,
                    h == orig.height,
                    self.width == orig.width,
                    self.height == orig.height,
                    self.decay_max == orig.decay_max,
                    self.decay_step == orig.decay_step,
                    self.cells@ == orig.cells@,
                    self.scratch_cells@.len() == orig.area(),
                    self.saturation@.len() == orig.area(),
                    y < h,
                    x <= w,
                    i == y * w + x,
                    forall|j: int|
                        0 <= j < i ==> self.scratch_cells@[j] == orig.next_cells_spec()[j],
                    forall|j: int| 0 <= j < i ==> self.saturation@[j] == orig.next_sat_spec()[j],
                    forall|j: int|
                        i <= j < orig.area() ==> self.saturation@[j] == orig.saturation@[j],
                decreases w - x,
            {
                proof {
                    lemma_index_in_area(w as int, h as int, x as int, y as int);
                }
                let n = self.count_neighbours(x, y);
                let cur = self.cells[i];
                let d = self.saturation[i];
                let ns: CellState;
                let nd: u8;
                match cur {
                    CellState::Alive => {
                        if n < 2 || n > 3 {
                            ns = CellState::Dead;
                            nd = self.decay_max;
                        } else {
                            ns = CellState::Alive;
                            nd = d;
                        }
                    },
                    CellState::Dead => {
                        if n == 3 {
                            ns = CellState::Alive;
                            nd = d;
                        } else {
                            ns = CellState::Dead;
                            nd = if d >= self.decay_step {
                                d - self.decay_step
                            } else {
                                0
                            };
                        }
                    },
                }
                self.scratch_cells.set(i, ns);
                self.saturation.set(i, nd);
                proof {
                    assert(self.scratch_cells@[i as int] == orig.next_cells_spec()[i as int]);
                    assert(self.saturation@[i as int] == orig.next_sat_spec()[i as int]);
                }
                i = i + 1;
                x = x + 1;
            }
            proof {
                assert((y as int + 1) * (w as int) == (y as int) * (w as int) + (w as int))
                    by (nonlinear_arith);
            }
            y = y + 1;
        }
        proof {
            assert((h as int) * (w as int) == (w as int) * (h as int)) by (nonlinear_arith);
            assert(i == orig.area());
        }
        self.swap_buffers();
        proof {
            assert(self.cells@ =~= orig.next_cells_spec());
            assert(self.saturation@ =~= orig.next_sat_spec());
        }
    }

    /// Replaces all owned state with freshly allocated buffers of the world's
    /// dimensions, every decay intensity 0. With `empty` the active buffer is
    /// entirely dead (the randomized grid is parked in the scratch buffer);
    /// otherwise the active buffer holds the randomized grid, each cell drawn
    /// independently (alive with probability 2/3), and the scratch buffer is
    /// entirely dead.
    pub fn generate_world(&mut self, empty: bool)
        requires
            old(self).wf(),
        ensures
            final(self).wf(),
            final(self).width == old(self).width,
            final(self).height == old(self).height,
            final(self).decay_max == old(self).decay_max,
            final(self).decay_step == old(self).decay_step,
            final(self).saturation@ == Seq::new(old(self).area() as nat, |i: int| 0u8),
            empty ==> final(self).cells@ == Seq::new(
                old(self).area() as nat,
                |i: int| CellState::Dead,
            ),
            !empty ==> final(self).scratch_cells@ == Seq::new(
                old(self).area() as nat,
                |i: int| CellState::Dead,
            ),
    {
        let area = self.width.checked_mul(self.height).unwrap_or(0);
        proof {
            assert(area == self.area());
        }
        let mut fresh: Vec<CellState> = Vec::new();
        let mut i: usize = 0;
        while i < area
            invariant
                i <= area,
                fresh@.len() == i,
            decreases area - i,
        {
            fresh.push(cell_from_roll(random_roll()));
            i += 1;
        }
        let dead = filled_cells(area, CellState::Dead);
        self.saturation = filled_bytes(area, 0);
        if empty {
            self.cells = dead;
            self.scratch_cells = fresh;
        } else {
            self.cells = fresh;
            self.scratch_cells = dead;
        }
    }

    /// Flips the active cell at `(x, y)` between Alive and Dead, leaving its
    /// decay intensity and every other cell untouched. Rejects an
    /// out-of-range coordinate and then changes nothing. Meant to be called
    /// only between ticks (while the simulation is paused).
    pub fn change_cell(&mut self, x: usize, y: usize) -> (r: Result<(), WorldError>)
        requires
            old(self).wf(),
        ensures
            final(self).wf(),
            final(self).width == old(self).width,
            final(self).height == old(self).height,
            final(self).decay_max == old(self).decay_max,
            final(self).decay_step == old(self).decay_step,
            final(self).saturation@ == old(self).saturation@,
            final(self).scratch_cells@ == old(self).scratch_cells@,
            match r {
                Ok(()) => in_bounds(
                    old(self).width as int,
                    old(self).height as int,
                    x as int,
                    y as int,
                ) && final(self).cells@ == crate::rules::toggled(
                    old(self).cells@,
                    (y as int) * (old(self).width as int) + (x as int),
                ),
                Err(e) => {
                    &&& e == WorldError::OutOfBounds
                    &&& !in_bounds(
                        old(self).width as int,
                        old(self).height as int,
                        x as int,
                        y as int,
                    )
                    &&& final(self).cells@ == old(self).cells@
                },
            },
    {
        if x >= self.width || y >= self.height {
            return Err(WorldError::OutOfBounds);
        }
        proof {
            lemma_index_in_area(self.width as int, self.height as int, x as int, y as int);
        }
        let i = y * self.width + x;
        let next = match self.cells[i] {
            CellState::Alive => CellState::Dead,
            CellState::Dead => CellState::Alive,
        };
        self.cells.set(i, next);
        Ok(())
    }

    /// Bounds-checked read of the active cell at `(x, y)`.
    pub fn get(&self, x: usize, y: usize) -> (r: Result<CellState, WorldError>)
        requires
            self.wf(),
        ensures
            match r {
                Ok(s) => in_bounds(self.width as int, self.height as int, x as int, y as int) && s
                    == self.cells@[(y as int) * (self.width as int) + (x as int)],
                Err(e) => e == WorldError::OutOfBounds && !in_bounds(
                    self.width as int,
                    self.height as int,
                    x as int,
                    y as int,
                ),
            },
    {
        if x >= self.width || y >= self.height {
            return Err(WorldError::OutOfBounds);
        }
        proof {
            lemma_index_in_area(self.width as int, self.height as int, x as int, y as int);
        }
        Ok(self.cells[y * self.width + x])
    }

    /// Bounds-checked write of the active cell at `(x, y)`.
    pub fn set(&mut self, x: usize, y: usize, state: CellState) -> (r: Result<(), WorldError>)
        requires
            old(self).wf(),
        ensures
            final(self).wf(),
            final(self).width == old(self).width,
            final(self).height == old(self).height,
            final(self).decay_max == old(self).decay_max,
            final(self).decay_step == old(self).decay_step,
            final(self).saturation@ == old(self).saturation@,
            final(self).scratch_cells@ == old(self).scratch_cells@,
            match r {
                Ok(()) => in_bounds(
                    old(self).width as int,
                    old(self).height as int,
                    x as int,
                    y as int,
                ) && final(self).cells@ == old(self).cells@.update(
                    (y as int) * (old(self).width as int) + (x as int),
                    state,
                ),
                Err(e) => {
                    &&& e == WorldError::OutOfBounds
                    &&& !in_bounds(
                        old(self).width as int,
                        old(self).height as int,
                        x as int,
                        y as int,
                    )
                    &&& final(self).cells@ == old(self).cells@
                },
            },
    {
        if x >= self.width || y >= self.height {
            return Err(WorldError::OutOfBounds);
        }
        proof {
            lemma_index_in_area(self.width as int, self.height as int, x as int, y as int);
        }
        self.cells.set(y * self.width + x, state);
        Ok(())
    }

    /// Bounds-checked read of the decay intensity at `(x, y)`.
    pub fn get_decay(&self, x: usize, y: usize) -> (r: Result<u8, WorldError>)
        requires
            self.wf(),
        ensures
            match r {
                Ok(d) => in_bounds(self.width as int, self.height as int, x as int, y as int) && d
                    == self.saturation@[(y as int) * (self.width as int) + (x as int)],
                Err(e) => e == WorldError::OutOfBounds && !in_bounds(
                    self.width as int,
                    self.height as int,
                    x as int,
                    y as int,
                ),
            },
    {
        if x >= self.width || y >= self.height {
            return Err(WorldError::OutOfBounds);
        }
        proof {
            lemma_index_in_area(self.width as int, self.height as int, x as int, y as int);
        }
        Ok(self.saturation[y * self.width + x])
    }

    /// Bounds-checked write of the decay intensity at `(x, y)`.
    pub fn set_decay(&mut self, x: usize, y: usize, value: u8) -> (r: Result<(), WorldError>)
        requires
            old(self).wf(),
        ensures
            final(self).wf(),
            final(self).width == old(self).width,
            final(self).height == old(self).height,
            final(self).decay_max == old(self).decay_max,
            final(self).decay_step == old(self).decay_step,
            final(self).cells@ == old(self).cells@,
            final(self).scratch_cells@ == old(self).scratch_cells@,
            match r {
                Ok(()) => in_bounds(
                    old(self).width as int,
                    old(self).height as int,
                    x as int,
                    y as int,
                ) && final(self).saturation@ == old(self).saturation@.update(
                    (y as int) * (old(self).width as int) + (x as int),
                    value,
                ),
                Err(e) => {
                    &&& e == WorldError::OutOfBounds
                    &&& !in_bounds(
                        old(self).width as int,
                        old(self).height as int,
                        x as int,
                        y as int,
                    )
                    &&& final(self).saturation@ == old(self).saturation@
                },
            },
    {
        if x >= self.width || y >= self.height {
            return Err(WorldError::OutOfBounds);
        }
        proof {
            lemma_index_in_area(self.width as int, self.height as int, x as int, y as int);
        }
        self.saturation.set(y * self.width + x, value);
        Ok(())
    }

    /// The RGBA image of the current state, 4 bytes per cell in the same
    /// row-major order as the cell buffer: byte `k` belongs to channel
    /// `k % 4` of the cell at linear index `k / 4`.
    pub open spec fn rendered(self) -> Seq<u8> {
        Seq::new(
            (4 * self.area()) as nat,
            |k: int| pixel_channel(self.cells@[k / 4], self.saturation@[k / 4], k % 4),
        )
    }

    /// Fills the caller-owned RGBA8888 buffer with the image of the current
    /// state: a live cell is near-opaque white, a dead cell an orange trail
    /// whose green and alpha channels equal its decay intensity. Reads no
    /// buffer but the active one and mutates nothing, so rendering between
    /// ticks always repeats the same bytes. A buffer whose length is not
    /// `width * height * 4` is rejected unchanged.
    pub fn draw(&self, frame: &mut Vec<u8>) -> (r: Result<(), WorldError>)
        requires
            self.wf(),
        ensures
            match r {
                Ok(()) => old(frame)@.len() == 4 * self.area() && final(frame)@ == self.rendered(),
                Err(e) => {
                    &&& e == WorldError::SizeMismatch
                    &&& old(frame)@.len() != 4 * self.area()
                    &&& final(frame)@ == old(frame)@
                },
            },
    {
        let area = self.width.checked_mul(self.height).unwrap_or(0);
        proof {
            assert(area == self.area());
        }
        if frame.len() != 4 * area {
            return Err(WorldError::SizeMismatch);
        }
        let mut i: usize = 0;
        while i < area
            invariant
                self.wf(),
                area == self.area(),
                frame@.len() == 4 * area,
                i <= area,
                forall|k: int| 0 <= k < 4 * i ==> frame@[k] == self.rendered()[k],
            decreases area - i,
        {
            let cell = self.cells[i];
            let d = self.saturation[i];
            let rgba: [u8; 4] = match cell {
                CellState::Alive => [255, 255, 255, 240],
                CellState::Dead => [255, d, 0, d],
            };
            frame.set(4 * i, rgba[0]);
            frame.set(4 * i + 1, rgba[1]);
            frame.set(4 * i + 2, rgba[2]);
            frame.set(4 * i + 3, rgba[3]);
            proof {
                let base = 4 * (i as int);
                lemma_fundamental_div_mod_converse(base, 4, i as int, 0);
                lemma_fundamental_div_mod_converse(base + 1, 4, i as int, 1);
                lemma_fundamental_div_mod_converse(base + 2, 4, i as int, 2);
                lemma_fundamental_div_mod_converse(base + 3, 4, i as int, 3);
                assert(frame@[base] == self.rendered()[base]);
                assert(frame@[base + 1] == self.rendered()[base + 1]);
                assert(frame@[base + 2] == self.rendered()[base + 2]);
                assert(frame@[base + 3] == self.rendered()[base + 3]);
            }
            i += 1;
        }
        proof {
            assert(frame@ =~= self.rendered());
        }
        Ok(())
    }

    /// Whether the cell at the in-bounds coordinate `(x, y)` of the active
    /// buffer is alive.
    fn is_alive(&self, x: usize, y: usize) -> (b: bool)
        requires
            self.wf(),
            x < self.width,
            y < self.height,
        ensures
            b == alive_at(self.cells@, self.width as int, self.height as int, x as int, y as int),
    {
        proof {
            lemma_index_in_area(self.width as int, self.height as int, x as int, y as int);
        }
        let i = y * self.width + x;
        self.cells[i] == CellState::Alive
    }

    /// Counts the live cells among the up-to-8 neighbors of `(x, y)` in the
    /// active buffer; neighbor coordinates outside the grid are excluded
    /// rather than wrapped.
    pub fn count_neighbours(&self, x: usize, y: usize) -> (n: u8)
        requires
            self.wf(),
            x < self.width,
            y < self.height,
        ensures
            n as int == neighbor_count(
                self.cells@,
                self.width as int,
                self.height as int,
                x as int,
                y as int,
            ),
            n <= 8,
    {
        proof {
            lemma_dims_at_most_area(self.width as int, self.height as int);
        }
        let mut n: u8 = 0;
        if x >= 1 && y >= 1 && self.is_alive(x - 1, y - 1) {
            n += 1;
        }
        if y >= 1 && self.is_alive(x, y - 1) {
            n += 1;
        }
        if x + 1 < self.width && y >= 1 && self.is_alive(x + 1, y - 1) {
            n += 1;
        }
        if x >= 1 && self.is_alive(x - 1, y) {
            n += 1;
        }
        if x + 1 < self.width && self.is_alive(x + 1, y) {
            n += 1;
        }
        if x >= 1 && y + 1 < self.height && self.is_alive(x - 1, y + 1) {
            n += 1;
        }
        if y + 1 < self.height && self.is_alive(x, y + 1) {
            n += 1;
        }
        if x + 1 < self.width && y + 1 < self.height && self.is_alive(x + 1, y + 1) {
            n += 1;
        }
        n
    }
}

/// After a tick, a cell whose live-neighbor count in the prior active grid
/// was exactly 3 is alive, whatever its prior state: a dead cell is born and
/// a live cell survives.
pub proof fn lemma_three_neighbors_lives(w: World, x: int, y: int)
    requires
        w.wf(),
        in_bounds(w.width as int, w.height as int, x, y),
        neighbor_count(w.cells@, w.width as int, w.height as int, x, y) == 3,
    ensures
        w.next_cells_spec()[y * (w.width as int) + x] == CellState::Alive,
{
    lemma_index_in_area(w.width as int, w.height as int, x, y);
}

/// After a tick, a live cell with fewer than 2 or more than 3 live neighbors
/// (0, 1, or 4 through 8) is dead and its decay intensity is exactly the
/// just-died flash value `decay_max`.
pub proof fn lemma_lonely_or_crowded_dies(w: World, x: int, y: int)
    requires
        w.wf(),
        in_bounds(w.width as int, w.height as int, x, y),
        w.cells@[y * (w.width as int) + x] == CellState::Alive,
        neighbor_count(w.cells@, w.width as int, w.height as int, x, y) != 2,
        neighbor_count(w.cells@, w.width as int, w.height as int, x, y) != 3,
    ensures
        w.next_cells_spec()[y * (w.width as int) + x] == CellState::Dead,
        w.next_sat_spec()[y * (w.width as int) + x] == w.decay_max,
{
    lemma_index_in_area(w.width as int, w.height as int, x, y);
}

/// After a tick, a dead cell that stays dead (live-neighbor count other than
/// 3) fades: its decay intensity becomes `max(0, d - decay_step)` where `d`
/// was its prior intensity — clamped at 0, never wrapping below.
pub proof fn lemma_decay_fades(w: World, x: int, y: int)
    requires
        w.wf(),
        in_bounds(w.width as int, w.height as int, x, y),
        w.cells@[y * (w.width as int) + x] == CellState::Dead,
        neighbor_count(w.cells@, w.width as int, w.height as int, x, y) != 3,
    ensures
        w.next_cells_spec()[y * (w.width as int) + x] == CellState::Dead,
        w.next_sat_spec()[y * (w.width as int) + x] as int == if w.saturation@[y * (w.width as int)
            + x] >= w.decay_step {
            w.saturation@[y * (w.width as int) + x] - w.decay_step
        } else {
            0
        },
        w.next_sat_spec()[y * (w.width as int) + x] >= 0,
{
    lemma_index_in_area(w.width as int, w.height as int, x, y);
}

/// A tick is deterministic: two worlds with the same dimensions, decay
/// parameters, active cells and decay intensities compute the same next
/// generation and the same next intensities. The rule is a pure function of
/// the current state.
pub proof fn lemma_update_deterministic(a: World, b: World)
    requires
        a.width == b.width,
        a.height == b.height,
        a.decay_max == b.decay_max,
        a.decay_step == b.decay_step,
        a.cells@ == b.cells@,
        a.saturation@ == b.saturation@,
    ensures
        a.next_cells_spec() == b.next_cells_spec(),
        a.next_sat_spec() == b.next_sat_spec(),
{
    assert(a.next_cells_spec() =~= b.next_cells_spec());
    assert(a.next_sat_spec() =~= b.next_sat_spec());
}

/// Rendering is deterministic and mutates nothing: two worlds with the same
/// dimensions, active cells and decay intensities render byte-identical
/// images, so drawing twice without a tick in between repeats the buffer.
pub proof fn lemma_render_deterministic(a: World, b: World)
    requires
        a.width == b.width,
        a.height == b.height,
        a.cells@ == b.cells@,
        a.saturation@ == b.saturation@,
    ensures
        a.rendered() == b.rendered(),
{
    assert(a.rendered() =~= b.rendered());
}

/// The RGBA channel byte a cell contributes to the image: channel `c` (0 is
/// red, 3 is alpha) for a cell in state `cell` with decay intensity `sat`.
/// A live cell renders near-opaque white `(255, 255, 255, 240)`; a dead cell
/// renders `(255, sat, 0, sat)`, an orange afterglow that fades with its
/// decay intensity.
pub open spec fn pixel_channel(cell: CellState, sat: u8, c: int) -> u8 {
    match cell {
        CellState::Alive => if c == 3 {
            240u8
        } else {
            255u8
        },
        CellState::Dead => if c == 0 {
            255u8
        } else if c == 2 {
            0u8
        } else {
            sat
        },
    }
}

/// Relies on `rand::Rng::gen_range` on `rand::thread_rng()`: for a non-empty
/// half-open range it returns a uniformly distributed value in that range,
/// here one of 0, 1 or 2. Nothing else holds of the result: it is fresh
/// process entropy on every call.
#[verifier::external_body]
fn random_roll() -> (r: u8)
    ensures
        r < 3,
{
    rand::thread_rng().gen_range(0..3u8)
}

/// The cell state a generated grid gives one roll of a three-sided die:
/// dead for 0, alive for 1 or 2, so a fresh cell is alive with probability
/// 2/3 when the roll is uniform.
pub fn cell_from_roll(roll: u8) -> (s: CellState)
    ensures
        s == (if roll == 0 {
            CellState::Dead
        } else {
            CellState::Alive
        }),
{
    if roll == 0 {
        CellState::Dead
    } else {
        CellState::Alive
    }
}

/// A vector of `n` copies of the cell state `s`.
fn filled_cells(n: usize, s: CellState) -> (v: Vec<CellState>)
    ensures
        v@ == Seq::new(n as nat, |i: int| s),
{
    let mut v: Vec<CellState> = Vec::new();
    let mut i: usize = 0;
    while i < n
        invariant
            i <= n,
            v@.len() == i,
            forall|j: int| 0 <= j < i ==> v@[j] == s,
        decreases n - i,
    {
        v.push(s);
        i += 1;
    }
    proof {
        assert(v@ =~= Seq::new(n as nat, |i: int| s));
    }
    v
}

/// A vector of `n` copies of the byte `b`.
fn filled_bytes(n: usize, b: u8) -> (v: Vec<u8>)
    ensures
        v@ == Seq::new(n as nat, |i: int| b),
{
    let mut v: Vec<u8> = Vec::new();
    let mut i: usize = 0;
    while i < n
        invariant
            i <= n,
            v@.len() == i,
            forall|j: int| 0 <= j < i ==> v@[j] == b,
        decreases n - i,
    {
        v.push(b);
        i += 1;
    }
    proof {
        assert(v@ =~= Seq::new(n as nat, |i: int| b));
    }
    v
}

} // verus!
