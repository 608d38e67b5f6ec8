//! The board: grid of cells, playback and editing state, and the
//! generation step.

use vstd::prelude::*;
use crate::grid::{
    cell_index, lemma_cell_index_bounds, lemma_cell_index_unique, lemma_neighbors_in_bounds,
    live_count, neighbor_seq, next_generation, next_state,
};
use crate::rect::{rect_contains, CellRect};

verus! {

/// Slowest speed level: one generation per second.
pub const MIN_SPEED: u8 = 1;

/// Fastest speed level.
pub const MAX_SPEED: u8 = 255;

/// Speed level of a new board.
pub const INITIAL_SPEED: u8 = 20;

/// Redraw rate, in frames per second, while the board is paused.
pub const PAUSED_RATE: u8 = 60;

/// Nanoseconds in one second.
pub const NANOS_PER_SECOND: u32 = 1_000_000_000;

/// Why a board could not be created.
#[derive(Clone, Copy, Debug, PartialEq, Eq, Structural)]
pub enum BoardError {
    /// The cell size is zero, the canvas holds no whole cell in one of its
    /// directions, or the grid has more cells than a `u32` can index.
    InvalidDimensions,
}

/// A canvas of `w` by `h` pixels cut into cells of side `cs` gives a usable
/// grid: at least one whole cell each way, and a cell count that a `u32`
/// can index.
pub open spec fn valid_dimensions(w: int, h: int, cs: int) -> bool {
    &&& cs > 0
    &&& w / cs > 0
    &&& h / cs > 0
    &&& (w / cs) * (h / cs) <= u32::MAX
}

/// The speed level after one increase: one more, up to `MAX_SPEED`.
pub open spec fn raised_speed(s: int) -> int {
    if s < MAX_SPEED {
        s + 1
    } else {
        s
    }
}

/// The speed level after one decrease: one less, down to `MIN_SPEED`.
pub open spec fn lowered_speed(s: int) -> int {
    if s > MIN_SPEED {
        s - 1
    } else {
        s
    }
}

/// The speed level after `n` increases from `s`.
pub open spec fn raised_times(s: int, n: nat) -> int
    decreases n,
{
    if n == 0 {
        s
    } else {
        raised_speed(raised_times(s, (n - 1) as nat))
    }
}

/// The speed level after `n` decreases from `s`.
pub open spec fn lowered_times(s: int, n: nat) -> int
    decreases n,
{
    if n == 0 {
        s
    } else {
        lowered_speed(lowered_times(s, (n - 1) as nat))
    }
}

/// Delay between frames, in nanoseconds: one second divided by the speed
/// level while running, by `PAUSED_RATE` while paused.
pub open spec fn frame_delay_nanos(running: bool, speed: int) -> int {
    NANOS_PER_SECOND as int / (if running { speed } else { PAUSED_RATE as int })
}

/// Speed adjustments saturate: any number of increases from `MAX_SPEED`
/// leaves it at `MAX_SPEED`, any number of decreases from `MIN_SPEED` leaves
/// it at `MIN_SPEED`, and from any level in range the level never leaves
/// `[MIN_SPEED, MAX_SPEED]`.
pub proof fn lemma_speed_clamped(s: int, n: nat)
    requires
        MIN_SPEED <= s <= MAX_SPEED,
    ensures
        raised_times(MAX_SPEED as int, n) == MAX_SPEED,
        lowered_times(MIN_SPEED as int, n) == MIN_SPEED,
        MIN_SPEED <= raised_times(s, n) <= MAX_SPEED,
        MIN_SPEED <= lowered_times(s, n) <= MAX_SPEED,
    decreases n,
{
    if n > 0 {
        lemma_speed_clamped(s, (n - 1) as nat);
    }
}

/// `n` dead cells.
pub open spec fn all_dead(n: int) -> Seq<bool> {
    Seq::new(n as nat, |i: int| false)
}

/// The pixel rectangle of cell `(x, y)` for cells of side `side`.
pub open spec fn cell_rect(side: int, x: int, y: int) -> CellRect {
    CellRect { x: (x * side) as u32, y: (y * side) as u32, width: side as u32, height: side as u32 }
}

/// A Game of Life board. Cells are stored row-major: cell `(x, y)` is at
/// index `y * columns + x`.
pub struct GameBoard {
    cell_size: u32,
    width: u32,
    height: u32,
    mouse_down: bool,
    paused: bool,
    step_divisor: u8,
    data: Vec<bool>,
}

impl GameBoard {
    /// Number of columns.
    pub closed spec fn columns(&self) -> int {
        self.width as int
    }

    /// Number of rows.
    pub closed spec fn rows(&self) -> int {
        self.height as int
    }

    /// Side of a cell, in pixels.
    pub closed spec fn side(&self) -> int {
        self.cell_size as int
    }

    /// The cells, row-major; `true` is alive.
    pub closed spec fn cells(&self) -> Seq<bool> {
        self.data@
    }

    /// The simulation advances on each step.
    pub closed spec fn running(&self) -> bool {
        !self.paused
    }

    /// A paint gesture is in progress.
    pub closed spec fn painting(&self) -> bool {
        self.mouse_down
    }

    /// Current speed level.
    pub closed spec fn speed(&self) -> int {
        self.step_divisor as int
    }

    /// Total number of cells.
    pub open spec fn total(&self) -> int {
        self.columns() * self.rows()
    }

    /// The board's invariant: positive dimensions whose cell count and pixel
    /// extent fit in a `u32`, one entry per cell, a speed level in range.
    pub open spec fn wf(&self) -> bool {
        &&& self.side() > 0
        &&& self.columns() > 0
        &&& self.rows() > 0
        &&& self.total() <= u32::MAX
        &&& self.columns() * self.side() <= u32::MAX
        &&& self.rows() * self.side() <= u32::MAX
        &&& self.cells().len() == self.total()
        &&& MIN_SPEED <= self.speed() <= MAX_SPEED
    }

    /// Creates a paused board with every cell dead, `size.0 / cell_size`
    /// columns and `size.1 / cell_size` rows. Fails with `InvalidDimensions`
    /// exactly when those dimensions are unusable (see `valid_dimensions`).
    pub fn create(size: (u32, u32), cell_size: u32) -> (r: Result<GameBoard, BoardError>)
        ensures
            r.is_ok() <==> valid_dimensions(size.0 as int, size.1 as int, cell_size as int),
            r matches Err(e) ==> e == BoardError::InvalidDimensions,
            r matches Ok(b) ==> {
                &&& b.wf()
                &&& b.columns() == size.0 / cell_size
                &&& b.rows() == size.1 / cell_size
                &&& b.side() == cell_size
                &&& b.cells() == all_dead(b.total())
                &&& !b.running()
                &&& !b.painting()
                &&& b.speed() == INITIAL_SPEED
            },
    {
        if cell_size == 0 {
            return Err(BoardError::InvalidDimensions);
        }
        let width = size.0 / cell_size;
        let height = size.1 / cell_size;
        assert(width as int * height as int <= u64::MAX) by (nonlinear_arith)
            requires
                width <= u32::MAX,
                height <= u32::MAX;
        if width == 0 || height == 0 || width as u64 * height as u64 > u32::MAX as u64 {
            return Err(BoardError::InvalidDimensions);
        }
        let total = width * height;
        proof {
            vstd::arithmetic::div_mod::lemma_fundamental_div_mod(size.0 as int, cell_size as int);
            vstd::arithmetic::div_mod::lemma_fundamental_div_mod(size.1 as int, cell_size as int);
            vstd::arithmetic::div_mod::lemma_mod_pos_bound(size.0 as int, cell_size as int);
            vstd::arithmetic::div_mod::lemma_mod_pos_bound(size.1 as int, cell_size as int);
            assert(width * cell_size <= size.0) by (nonlinear_arith)
                requires
                    size.0 == cell_size * (size.0 / cell_size) + size.0 % cell_size,
                    size.0 % cell_size >= 0,
                    width == size.0 / cell_size;
            assert(height * cell_size <= size.1) by (nonlinear_arith)
                requires
                    size.1 == cell_size * (size.1 / cell_size) + size.1 % cell_size,
                    size.1 % cell_size >= 0,
                    height == size.1 / cell_size;
        }
        let mut vector: Vec<bool> = Vec::with_capacity(total as usize);
        let mut i: u32 = 0;
        while i < total
            invariant
                0 <= i <= total,
                vector@ == all_dead(i as int),
            decreases total - i,
        {
            vector.push(false);
            i += 1;
            assert(vector@ =~= all_dead(i as int));
        }
        Ok(GameBoard {
            cell_size,
            width,
            height,
            mouse_down: false,
            paused: true,
            step_divisor: INITIAL_SPEED,
            data: vector,
        })
    }

    /// Clears every cell, pauses the board and ends any paint gesture.
    pub fn reset(&mut self)
        requires
            old(self).wf(),
        ensures
            final(self).wf(),
            final(self).cells() == all_dead(old(self).total()),
            !final(self).running(),
            !final(self).painting(),
            final(self).columns() == old(self).columns(),
            final(self).rows() == old(self).rows(),
            final(self).side() == old(self).side(),
            final(self).speed() == old(self).speed(),
    {
        self.paused = true;
        self.mouse_down = false;
        let total = self.total_squares();
        let mut i: u32 = 0;
        while i < total
            invariant
                self.wf(),
                total == self.total(),
                self.width == old(self).width,
                self.height == old(self).height,
                self.cell_size == old(self).cell_size,
                self.step_divisor == old(self).step_divisor,
                self.paused,
                !self.mouse_down,
                0 <= i <= total,
                forall|j: int| 0 <= j < i ==> !self.data@[j],
            decreases total - i,
        {
            self.data.set(i as usize, false);
            i += 1;
        }
        assert(self.data@ =~= all_dead(self.total()));
    }

    /// Total number of cells, `columns * rows`.
    pub fn total_squares(&self) -> (r: u32)
        requires
            self.wf(),
        ensures
            r == self.total(),
            r == self.cells().len(),
    {
        self.width * self.height
    }

    /// The neighbors of cell `index`, in the order of `neighbor_seq`:
    /// every adjacent cell (orthogonal or diagonal) that lies on the board.
    pub fn get_neighbor_cells(&self, index: u32) -> (r: Vec<u32>)
        requires
            self.wf(),
            index < self.total(),
        ensures
            r@.map_values(|v: u32| v as int) == neighbor_seq(self.columns(), self.rows(), index as int),
    {
        let ghost c = self.columns();
        let ghost i = index as int;
        let total = self.total_squares();
        let w = self.width;
        assert(w <= total) by (nonlinear_arith)
            requires w as int * self.height as int == total, self.height >= 1, w >= 1;
        let mut output: Vec<u32> = Vec::new();

        let left_edge = index % w == 0;
        let right_edge = (index + 1) % w == 0;
        let top_edge = index < w;
        let bottom_edge = index >= total - w;
        proof {
            lemma_neighbors_in_bounds(c, self.rows(), i);
            assert(0int % c == 0);
            if i >= c {
                vstd::arithmetic::div_mod::lemma_mod_sub_multiples_vanish(i, c);
            }
        }

        if !left_edge {
            output.push(index - 1);
        }
        if !right_edge {
            output.push(index + 1);
        }
        if !top_edge {
            output.push(index - w);
            if !left_edge {
                output.push(index - w - 1);
            }
            if !right_edge {
                output.push(index - w + 1);
            }
        }
        if !bottom_edge {
            output.push(index + w);
            if !left_edge {
                output.push(index + w - 1);
            }
            if !right_edge {
                output.push(index + w + 1);
            }
        }
        assert(output@.map_values(|v: u32| v as int) =~= neighbor_seq(c, self.rows(), i));
        output
    }

    /// How many neighbors of cell `index` are alive. A neighbor index off the
    /// board is skipped.
    pub fn alive_neighbors(&self, index: u32) -> (r: u32)
        requires
            self.wf(),
            index < self.total(),
        ensures
            r == live_count(self.cells(), neighbor_seq(self.columns(), self.rows(), index as int)),
            r <= 8,
    {
        let ghost ns = neighbor_seq(self.columns(), self.rows(), index as int);
        let neighbors = self.get_neighbor_cells(index);
        let total = self.total_squares();
        proof {
            lemma_neighbors_in_bounds(self.columns(), self.rows(), index as int);
            assert(neighbors@.len() == ns.len());
        }
        let mut count: u32 = 0;
        let mut k: usize = 0;
        while k < neighbors.len()
            invariant
                self.wf(),
                total == self.total(),
                neighbors@.map_values(|v: u32| v as int) == ns,
                neighbors@.len() == ns.len(),
                ns.len() <= 8,
                0 <= k <= neighbors@.len(),
                count == live_count(self.cells(), ns.take(k as int)),
                count <= k,
            decreases neighbors@.len() - k,
        {
            let cell = neighbors[k];
            proof {
                assert(ns.take(k as int + 1).drop_last() =~= ns.take(k as int));
                assert(ns[k as int] == cell as int);
            }
            if cell < total && self.data[cell as usize] {
                count += 1;
            }
            k += 1;
        }
        assert(ns.take(k as int) =~= ns);
        count
    }

    /// Advances one generation while running; does nothing while paused.
    /// Every next state is computed from the current generation into a
    /// separate buffer, which replaces the cells once the scan is complete.
    pub fn step_simulation(&mut self)
        requires
            old(self).wf(),
        ensures
            final(self).wf(),
            !old(self).running() ==> *final(self) == *old(self),
            old(self).running() ==> final(self).cells() == next_generation(
                old(self).columns(),
                old(self).rows(),
                old(self).cells(),
            ),
            final(self).columns() == old(self).columns(),
            final(self).rows() == old(self).rows(),
            final(self).side() == old(self).side(),
            final(self).running() == old(self).running(),
            final(self).painting() == old(self).painting(),
            final(self).speed() == old(self).speed(),
    {
        if self.paused {
            return;
        }
        let ghost cells = self.cells();
        let total = self.total_squares();
        let mut next: Vec<bool> = Vec::with_capacity(total as usize);
        let mut i: u32 = 0;
        while i < total
            invariant
                self.wf(),
                *self == *old(self),
                total == self.total(),
                cells == self.cells(),
                0 <= i <= total,
                next@.len() == i,
                forall|j: int| 0 <= j < i ==> next@[j] == next_generation(
                    self.columns(),
                    self.rows(),
                    cells,
                )[j],
            decreases total - i,
        {
            let alive_neighbors = self.alive_neighbors(i);
            let alive = self.data[i as usize];
            let mut change = alive;
            if alive {
                if alive_neighbors < 2 || alive_neighbors > 3 {
                    change = false;
                }
            } else if alive_neighbors == 3 {
                change = true;
            }
            assert(change == next_state(alive, alive_neighbors as nat));
            next.push(change);
            i += 1;
        }
        assert(next@ =~= next_generation(self.columns(), self.rows(), cells));
        self.data = next;
    }

    /// Whether cell `(x, y)` is alive.
    pub fn is_cell_alive(&self, x: u32, y: u32) -> (r: bool)
        requires
            self.wf(),
            x < self.columns(),
            y < self.rows(),
        ensures
            r == self.cells()[cell_index(self.columns(), x as int, y as int)],
    {
        proof {
            lemma_cell_index_bounds(self.columns(), self.rows(), x as int, y as int);
        }
        self.data[(y * self.width + x) as usize]
    }

    /// Sets cell `(x, y)` alive or dead; every other cell is left as it was.
    pub fn set_cell(&mut self, x: u32, y: u32, alive: bool)
        requires
            old(self).wf(),
            x < old(self).columns(),
            y < old(self).rows(),
        ensures
            final(self).wf(),
            final(self).cells() == old(self).cells().update(
                cell_index(old(self).columns(), x as int, y as int),
                alive,
            ),
            final(self).columns() == old(self).columns(),
            final(self).rows() == old(self).rows(),
            final(self).side() == old(self).side(),
            final(self).running() == old(self).running(),
            final(self).painting() == old(self).painting(),
            final(self).speed() == old(self).speed(),
    {
        proof {
            lemma_cell_index_bounds(self.columns(), self.rows(), x as int, y as int);
        }
        self.data.set((y * self.width + x) as usize, alive);
    }

    /// The pixel rectangle where cell `(x, y)` is drawn.
    pub fn cell_rectangle(&self, x: u32, y: u32) -> (r: CellRect)
        requires
            self.wf(),
            x < self.columns(),
            y < self.rows(),
        ensures
            r == cell_rect(self.side(), x as int, y as int),
            r.x == x * self.side(),
            r.y == y * self.side(),
            r.width == self.side(),
            r.height == self.side(),
    {
        let cs = self.cell_size;
        assert(x * cs <= self.width * cs && y * cs <= self.height * cs) by (nonlinear_arith)
            requires
                x < self.width,
                y < self.height;
        CellRect { x: x * cs, y: y * cs, width: cs, height: cs }
    }

    /// The draw pass of one frame: for every cell in row-major order, its
    /// rectangle and whether it was alive when the pass reached it. While a
    /// paint gesture is in progress, a cell whose rectangle holds the pointer
    /// is set alive; painting never kills a cell.
    pub fn render_pass(&mut self, pointer_x: i32, pointer_y: i32) -> (r: Vec<(CellRect, bool)>)
        requires
            old(self).wf(),
        ensures
            final(self).wf(),
            final(self).columns() == old(self).columns(),
            final(self).rows() == old(self).rows(),
            final(self).side() == old(self).side(),
            final(self).running() == old(self).running(),
            final(self).painting() == old(self).painting(),
            final(self).speed() == old(self).speed(),
            r@.len() == old(self).total(),
            forall|x: int, y: int|
                0 <= x < old(self).columns() && 0 <= y < old(self).rows() ==> {
                    let j = #[trigger] cell_index(old(self).columns(), x, y);
                    let rect = cell_rect(old(self).side(), x, y);
                    &&& r@[j] == (rect, old(self).cells()[j])
                    &&& final(self).cells()[j] == (old(self).cells()[j] || (old(self).painting()
                        && rect_contains(rect, pointer_x as int, pointer_y as int)))
                },
    {
        let ghost c = self.columns();
        let ghost old_cells = self.cells();
        let mut out: Vec<(CellRect, bool)> = Vec::new();
        let mut y: u32 = 0;
        while y < self.height
            invariant
                self.wf(),
                self.width == old(self).width,
                self.height == old(self).height,
                self.cell_size == old(self).cell_size,
                self.mouse_down == old(self).mouse_down,
                self.paused == old(self).paused,
                self.step_divisor == old(self).step_divisor,
                c == self.columns(),
                old_cells == old(self).cells(),
                0 <= y <= self.height,
                out@.len() == y * c,
                forall|xx: int, yy: int|
                    0 <= xx < c && 0 <= yy && #[trigger] cell_index(c, xx, yy) < out@.len() ==> {
                        let j = cell_index(c, xx, yy);
                        let rect = cell_rect(self.side(), xx, yy);
                        &&& out@[j] == (rect, old_cells[j])
                        &&& self.data@[j] == (old_cells[j] || (self.mouse_down
                            && rect_contains(rect, pointer_x as int, pointer_y as int)))
                    },
                forall|j: int| out@.len() <= j < self.data@.len() ==> self.data@[j] == old_cells[j],
            decreases self.height - y,
        {
            let mut x: u32 = 0;
            while x < self.width
                invariant
                    self.wf(),
                    self.width == old(self).width,
                    self.height == old(self).height,
                    self.cell_size == old(self).cell_size,
                    self.mouse_down == old(self).mouse_down,
                    self.paused == old(self).paused,
                    self.step_divisor == old(self).step_divisor,
                    c == self.columns(),
                    old_cells == old(self).cells(),
                    0 <= y < self.height,
                    0 <= x <= self.width,
                    out@.len() == y * c + x,
                    forall|xx: int, yy: int|
                        0 <= xx < c && 0 <= yy && #[trigger] cell_index(c, xx, yy) < out@.len() ==> {
                            let j = cell_index(c, xx, yy);
                            let rect = cell_rect(self.side(), xx, yy);
                            &&& out@[j] == (rect, old_cells[j])
                            &&& self.data@[j] == (old_cells[j] || (self.mouse_down
                                && rect_contains(rect, pointer_x as int, pointer_y as int)))
                        },
                    forall|j: int| out@.len() <= j < self.data@.len() ==> self.data@[j] == old_cells[j],
                decreases self.width - x,
            {
                proof {
                    lemma_cell_index_bounds(c, self.rows(), x as int, y as int);
                }
                let index = y * self.width + x;
                let alive = self.data[index as usize];
                let rect = self.cell_rectangle(x, y);
                if self.mouse_down && rect.contains_point(pointer_x, pointer_y) {
                    self.data.set(index as usize, true);
                }
                out.push((rect, alive));
                proof {
                    assert forall|xx: int, yy: int|
                        0 <= xx < c && 0 <= yy && #[trigger] cell_index(c, xx, yy) < out@.len()
                        implies {
                            let j = cell_index(c, xx, yy);
                            let rect = cell_rect(self.side(), xx, yy);
                            &&& out@[j] == (rect, old_cells[j])
                            &&& self.data@[j] == (old_cells[j] || (self.mouse_down
                                && rect_contains(rect, pointer_x as int, pointer_y as int)))
                        } by {
                        if cell_index(c, xx, yy) == index {
                            lemma_cell_index_unique(c, xx, yy, x as int, y as int);
                        }
                    }
                }
                x += 1;
            }
            assert(y * c + c == (y + 1) * c) by (nonlinear_arith);
            y += 1;
        }
        proof {
            assert(out@.len() == c * self.rows()) by (nonlinear_arith)
                requires
                    out@.len() == y * c,
                    y == self.rows();
            assert forall|x: int, y: int|
                0 <= x < c && 0 <= y < self.rows() implies #[trigger] cell_index(c, x, y) < out@.len() by {
                lemma_cell_index_bounds(c, self.rows(), x, y);
            }
        }
        out
    }

    /// Switches between running and paused; nothing else changes.
    pub fn toggle_pause(&mut self)
        requires
            old(self).wf(),
        ensures
            final(self).wf(),
            final(self).running() == !old(self).running(),
            final(self).cells() == old(self).cells(),
            final(self).columns() == old(self).columns(),
            final(self).rows() == old(self).rows(),
            final(self).side() == old(self).side(),
            final(self).painting() == old(self).painting(),
            final(self).speed() == old(self).speed(),
    {
        self.paused = !self.paused;
    }

    /// Primary pointer pressed: starts a paint gesture while paused, and is
    /// ignored while running.
    pub fn pointer_down(&mut self)
        requires
            old(self).wf(),
        ensures
            final(self).wf(),
            final(self).painting() == (old(self).painting() || !old(self).running()),
            final(self).running() == old(self).running(),
            final(self).cells() == old(self).cells(),
            final(self).columns() == old(self).columns(),
            final(self).rows() == old(self).rows(),
            final(self).side() == old(self).side(),
            final(self).speed() == old(self).speed(),
    {
        if self.paused {
            self.mouse_down = true;
        }
    }

    /// Primary pointer released: ends any paint gesture.
    pub fn pointer_up(&mut self)
        requires
            old(self).wf(),
        ensures
            final(self).wf(),
            !final(self).painting(),
            final(self).running() == old(self).running(),
            final(self).cells() == old(self).cells(),
            final(self).columns() == old(self).columns(),
            final(self).rows() == old(self).rows(),
            final(self).side() == old(self).side(),
            final(self).speed() == old(self).speed(),
    {
        self.mouse_down = false;
    }

    /// Raises the speed level by one, up to `MAX_SPEED`.
    pub fn increase_speed(&mut self)
        requires
            old(self).wf(),
        ensures
            final(self).wf(),
            final(self).speed() == raised_speed(old(self).speed()),
            final(self).running() == old(self).running(),
            final(self).painting() == old(self).painting(),
            final(self).cells() == old(self).cells(),
            final(self).columns() == old(self).columns(),
            final(self).rows() == old(self).rows(),
            final(self).side() == old(self).side(),
    {
        if self.step_divisor < MAX_SPEED {
            self.step_divisor = self.step_divisor + 1;
        }
    }

    /// Lowers the speed level by one, down to `MIN_SPEED`.
    pub fn decrease_speed(&mut self)
        requires
            old(self).wf(),
        ensures
            final(self).wf(),
            final(self).speed() == lowered_speed(old(self).speed()),
            final(self).running() == old(self).running(),
            final(self).painting() == old(self).painting(),
            final(self).cells() == old(self).cells(),
            final(self).columns() == old(self).columns(),
            final(self).rows() == old(self).rows(),
            final(self).side() == old(self).side(),
    {
        if self.step_divisor > MIN_SPEED {
            self.step_divisor = self.step_divisor - 1;
        }
    }

    /// The delay the host should wait before the next frame, in nanoseconds.
    pub fn frame_delay(&self) -> (r: u32)
        requires
            self.wf(),
        ensures
            r == frame_delay_nanos(self.running(), self.speed()),
            r > 0,
    {
        let divisor: u32 = if self.paused {
            PAUSED_RATE as u32
        } else {
            self.step_divisor as u32
        };
        assert(1_000_000_000u32 as int / divisor as int >= 1) by (nonlinear_arith)
            requires
                1 <= divisor <= 255;
        NANOS_PER_SECOND / divisor
    }

    /// Number of columns.
    pub fn column_count(&self) -> (r: u32)
        ensures
            r == self.columns(),
    {
        self.width
    }

    /// Number of rows.
    pub fn row_count(&self) -> (r: u32)
        ensures
            r == self.rows(),
    {
        self.height
    }

    /// Side of a cell, in pixels.
    pub fn cell_size(&self) -> (r: u32)
        ensures
            r == self.side(),
    {
        self.cell_size
    }

    /// Whether the simulation is running.
    pub fn is_running(&self) -> (r: bool)
        ensures
            r == self.running(),
    {
        !self.paused
    }

    /// Whether a paint gesture is in progress.
    pub fn is_painting(&self) -> (r: bool)
        ensures
            r == self.painting(),
    {
        self.mouse_down
    }

    /// Current speed level.
    pub fn speed_level(&self) -> (r: u8)
        ensures
            r == self.speed(),
    {
        self.step_divisor
    }
}

} // verus!
