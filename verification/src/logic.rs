//! The simulation engine: a toroidal Game-of-Life grid with per-cell age
//! counters, a tick counter, a run/pause flag and a statistics summary.
//!
//! Each operation's contract states the new state as a transition function
//! of the model in [`crate::grid`] applied to the old state.

use vstd::prelude::*;
use vstd::arithmetic::div_mod::lemma_mod_bound;
use vstd::arithmetic::div_mod::lemma_multiply_divide_lt;
use vstd::pervasive::VecAdditionalExecFns;

use crate::grid::GridModel;
use crate::grid::StatsModel;
use crate::grid::MAX_LIFE;
use crate::grid::brush_covers;
use crate::grid::cell_index;
use crate::grid::cell_set;
use crate::grid::cell_x;
use crate::grid::cell_y;
use crate::grid::cleared;
use crate::grid::cycle_grid;
use crate::grid::grid_wf;
use crate::grid::in_brush;
use crate::grid::initial_grid;
use crate::grid::lemma_cell_index_bound;
use crate::grid::lemma_ticks_frame;
use crate::grid::moving_count;
use crate::grid::neighbor_count;
use crate::grid::next_alive;
use crate::grid::next_life;
use crate::grid::region_set;
use crate::grid::stats_of;
use crate::grid::stopped_count;
use crate::grid::tick_grid;
use crate::grid::ticks_grid;
use crate::grid::wrap;
use crate::grid::wrapped_alive;

verus! {

/// The one construction-time failure: a width or height below one.
#[derive(Clone, Copy, Debug, PartialEq, Eq, Structural)]
pub enum GridError {
    InvalidDimensions,
}

/// Count of live cells still aging (`moving`) and of live cells whose age
/// has saturated at `MAX_LIFE` (`stopped`).
#[derive(Clone)]
pub struct GameStats {
    pub moving: usize,
    pub stopped: usize,
}

impl View for GameStats {
    type V = StatsModel;

    open spec fn view(&self) -> StatsModel {
        StatsModel { moving: self.moving as int, stopped: self.stopped as int }
    }
}

/// The simulation state: the grid, the aging buffer, the tick counter, the
/// cycle length, the run/pause flag and the last statistics snapshot.
#[derive(Clone)]
pub struct GameState {
    pub width: usize,
    pub height: usize,
    /// Live/dead state of each cell, row-major: index `x + y * width`.
    pub data: Vec<bool>,
    /// Consecutive ticks each cell has stayed alive, saturating at `MAX_LIFE`.
    pub life: Vec<u8>,
    pub current_tick: usize,
    pub ticks_per_cycle: usize,
    pub running: bool,
    pub stats: GameStats,
}

impl View for GameState {
    type V = GridModel;

    open spec fn view(&self) -> GridModel {
        GridModel {
            width: self.width as int,
            height: self.height as int,
            data: self.data@,
            life: self.life@,
            current_tick: self.current_tick as int,
            ticks_per_cycle: self.ticks_per_cycle as int,
            running: self.running,
            stats: self.stats@,
        }
    }
}

/// A vector of `n` dead cells.
fn filled_false(n: usize) -> (r: Vec<bool>)
    ensures
        r@ == Seq::new(n as nat, |i: int| false),
{
    let mut v: Vec<bool> = Vec::new();
    let mut k: usize = 0;
    while k < n
        invariant
            k <= n,
            v@.len() == k,
            forall|i: int| 0 <= i < k ==> !v@[i],
        decreases n - k,
    {
        v.push(false);
        k = k + 1;
    }
    proof {
        assert(v@ =~= Seq::new(n as nat, |i: int| false));
    }
    v
}

/// A vector of `n` zero bytes.
pub(crate) fn filled_zero(n: usize) -> (r: Vec<u8>)
    ensures
        r@ == Seq::new(n as nat, |i: int| 0u8),
{
    let mut v: Vec<u8> = Vec::new();
    let mut k: usize = 0;
    while k < n
        invariant
            k <= n,
            v@.len() == k,
            forall|i: int| 0 <= i < k ==> v@[i] == 0u8,
        decreases n - k,
    {
        v.push(0u8);
        k = k + 1;
    }
    proof {
        assert(v@ =~= Seq::new(n as nat, |i: int| 0u8));
    }
    v
}

impl GameStats {
    /// An empty summary: nothing counted yet.
    pub fn new() -> (r: GameStats)
        ensures
            r@ == (StatsModel { moving: 0, stopped: 0 }),
    {
        GameStats { moving: 0, stopped: 0 }
    }

    /// One pass over the grid: each live cell is counted as stopped when its
    /// age has saturated at `MAX_LIFE` and as moving otherwise; dead cells
    /// are counted in neither bucket.
    pub fn from_state(game_state: &GameState) -> (r: GameStats)
        requires
            game_state.wf(),
        ensures
            r@ == stats_of(game_state@.data, game_state@.life),
    {
        let mut stopped: usize = 0;
        let mut moving: usize = 0;
        let n = game_state.data.len();
        let mut i: usize = 0;
        while i < n
            invariant
                i <= n,
                n == game_state@.data.len(),
                game_state.wf(),
                moving == moving_count(game_state@.data, game_state@.life, i as int),
                stopped == stopped_count(game_state@.data, game_state@.life, i as int),
                moving + stopped <= i,
            decreases n - i,
        {
            let alive = game_state.data[i];
            if alive {
                if game_state.life[i] == MAX_LIFE {
                    stopped = stopped + 1;
                } else {
                    moving = moving + 1;
                }
            }
            i = i + 1;
        }
        GameStats { moving, stopped }
    }
}

impl GameState {
    /// Well-formedness: see [`grid_wf`].
    pub open spec fn wf(&self) -> bool {
        grid_wf(self@)
    }

    /// A fresh grid of the given `(width, height)`: everything dead, all
    /// ages zero, tick counter zero, one tick per cycle, running. Fails
    /// with `InvalidDimensions` exactly when a dimension is below one.
    pub fn new(size: (usize, usize)) -> (r: Result<GameState, GridError>)
        requires
            size.0 as int * size.1 as int <= usize::MAX,
            size.0 <= isize::MAX,
            size.1 <= isize::MAX,
        ensures
            r is Ok <==> (size.0 >= 1 && size.1 >= 1),
            r matches Ok(g) ==> g@ == initial_grid(size.0 as int, size.1 as int) && g.wf(),
            r matches Err(e) ==> e == GridError::InvalidDimensions,
    {
        let (width, height) = size;
        if width < 1 || height < 1 {
            return Err(GridError::InvalidDimensions);
        }
        let n = width * height;
        let g = GameState {
            width,
            height,
            data: filled_false(n),
            life: filled_zero(n),
            current_tick: 0,
            ticks_per_cycle: 1,
            running: true,
            stats: GameStats::new(),
        };
        proof {
            assert(g@ =~= initial_grid(size.0 as int, size.1 as int));
        }
        Ok(g)
    }

    /// Stores how many ticks each subsequent cycle performs; zero makes a
    /// cycle advance nothing even while running.
    pub fn set_ticks_per_cycle(&mut self, value: usize)
        ensures
            final(self)@ == (GridModel { ticks_per_cycle: value as int, ..old(self)@ }),
    {
        self.ticks_per_cycle = value;
    }

    /// The number of cells of the grid.
    pub fn size(&self) -> (r: usize)
        requires
            self.wf(),
        ensures
            r == self@.width * self@.height,
    {
        self.width * self.height
    }

    /// Kills every cell and zeroes every age; the tick counter, the cycle
    /// length, the running flag and the statistics are untouched.
    pub fn clear(&mut self)
        requires
            old(self).wf(),
        ensures
            final(self)@ == cleared(old(self)@),
            final(self).wf(),
    {
        let n = self.width * self.height;
        self.data = filled_false(n);
        self.life = filled_zero(n);
        proof {
            assert(self@ =~= cleared(old(self)@));
        }
    }

    /// The position stored at a linear index: `(idx % width, idx / width)`.
    /// For an index below `width * height` the position is in bounds.
    pub fn index_to_pos(&self, idx: usize) -> (r: (usize, usize))
        requires
            self.wf(),
        ensures
            r.0 == cell_x(self@.width, idx as int),
            r.1 == cell_y(self@.width, idx as int),
            idx < self@.width * self@.height ==> (r.0 < self@.width && r.1 < self@.height),
    {
        proof {
            if idx < self@.width * self@.height {
                lemma_multiply_divide_lt(idx as int, self@.width, self@.height);
            }
        }
        (idx % self.width, idx / self.width)
    }

    /// The linear index of an in-bounds position: `x + y * width`.
    /// Positions outside the grid are a contract violation and are refused
    /// here; all engine-internal callers wrap coordinates first.
    pub fn pos_to_index(&self, pos: (usize, usize)) -> (r: usize)
        requires
            self.wf(),
            pos.0 < self@.width,
            pos.1 < self@.height,
        ensures
            r == cell_index(self@.width, pos.0 as int, pos.1 as int),
            r < self@.width * self@.height,
    {
        proof {
            lemma_cell_index_bound(self@.width, self@.height, pos.0 as int, pos.1 as int);
        }
        pos.0 + pos.1 * self.width
    }

    /// Maps an arbitrary signed position onto the torus with a floor-style
    /// (always non-negative) modulus, so negative offsets wrap correctly.
    fn wrap_positions(&self, pos: (isize, isize)) -> (r: (usize, usize))
        requires
            self.wf(),
        ensures
            r.0 as int == wrap(pos.0 as int, self@.width),
            r.1 as int == wrap(pos.1 as int, self@.height),
            r.0 < self@.width,
            r.1 < self@.height,
    {
        proof {
            lemma_mod_bound(pos.0 as int, self@.width);
            lemma_mod_bound(pos.1 as int, self@.height);
        }
        let wx = pos.0.checked_rem_euclid(self.width as isize).unwrap();
        let wy = pos.1.checked_rem_euclid(self.height as isize).unwrap();
        (wx as usize, wy as usize)
    }

    /// Whether the neighbor of `(x, y)` at offset `(ox, oy)` is alive, the
    /// neighbor position wrapped around the torus first.
    fn alive_at_offset(&self, x: usize, y: usize, ox: isize, oy: isize) -> (r: bool)
        requires
            self.wf(),
            x < self@.width,
            y < self@.height,
            -1 <= ox <= 1,
            -1 <= oy <= 1,
        ensures
            r == wrapped_alive(self@.data, self@.width, self@.height, x + ox, y + oy),
    {
        let wrapped = self.wrap_positions((x as isize + ox, y as isize + oy));
        let idx = self.pos_to_index(wrapped);
        self.data[idx]
    }

    /// How many of the eight compass neighbors of the cell at `idx` are
    /// alive, counting across the wrapped edges of the torus.
    pub fn alive_neighbors_count_for_index(&self, idx: usize) -> (r: usize)
        requires
            self.wf(),
            idx < self@.width * self@.height,
        ensures
            r == neighbor_count(
                self@.data,
                self@.width,
                self@.height,
                cell_x(self@.width, idx as int),
                cell_y(self@.width, idx as int),
            ),
            r <= 8,
    {
        let (x, y) = self.index_to_pos(idx);
        let mut count: usize = 0;
        if self.alive_at_offset(x, y, -1, 0) {
            count = count + 1;
        }
        if self.alive_at_offset(x, y, -1, 1) {
            count = count + 1;
        }
        if self.alive_at_offset(x, y, 0, 1) {
            count = count + 1;
        }
        if self.alive_at_offset(x, y, 1, 1) {
            count = count + 1;
        }
        if self.alive_at_offset(x, y, 1, 0) {
            count = count + 1;
        }
        if self.alive_at_offset(x, y, 1, -1) {
            count = count + 1;
        }
        if self.alive_at_offset(x, y, 0, -1) {
            count = count + 1;
        }
        if self.alive_at_offset(x, y, -1, -1) {
            count = count + 1;
        }
        count
    }

    /// Overwrites one cell from outside: its state becomes `value` and its
    /// age resets to zero, even when the state does not change.
    pub fn set_value_at_pos(&mut self, pos: (usize, usize), value: bool)
        requires
            old(self).wf(),
            pos.0 < old(self)@.width,
            pos.1 < old(self)@.height,
        ensures
            final(self)@ == cell_set(old(self)@, pos.0 as int, pos.1 as int, value),
            final(self).wf(),
    {
        let idx = self.pos_to_index(pos);
        self.data.set(idx, value);
        self.life.set(idx, 0);
        proof {
            assert(self@ =~= cell_set(old(self)@, pos.0 as int, pos.1 as int, value));
        }
    }

    /// Overwrites every cell's state with an independent fair coin draw and
    /// resets every age to zero; nothing else changes. Nothing is promised
    /// of the drawn states themselves.
    pub fn randomize(&mut self)
        requires
            old(self).wf(),
        ensures
            final(self).wf(),
            final(self)@.width == old(self)@.width,
            final(self)@.height == old(self)@.height,
            final(self)@.data.len() == old(self)@.width * old(self)@.height,
            final(self)@.life == Seq::new((old(self)@.width * old(self)@.height) as nat, |i: int| 0u8),
            final(self)@.current_tick == old(self)@.current_tick,
            final(self)@.ticks_per_cycle == old(self)@.ticks_per_cycle,
            final(self)@.running == old(self)@.running,
            final(self)@.stats == old(self)@.stats,
    {
        let n = self.width * self.height;
        let mut d: Vec<bool> = Vec::new();
        let mut k: usize = 0;
        while k < n
            invariant
                k <= n,
                d@.len() == k,
            decreases n - k,
        {
            d.push(random_bool());
            k = k + 1;
        }
        self.data = d;
        self.life = filled_zero(n);
    }

    /// Paints a discrete disk: for a radius below two this is exactly
    /// [`Self::set_value_at_pos`]; otherwise every offset `(rx, ry)` of the
    /// half-open square window of half-width `radius / 2` satisfying
    /// `rx² + ry² <= (radius / 2)²` is wrapped around the torus and written
    /// like a single-cell write. The machine-limit preconditions keep the
    /// signed window arithmetic within `isize`.
    pub fn set_value_at_pos_with_radius(&mut self, pos: (usize, usize), radius: usize, value: bool)
        requires
            old(self).wf(),
            pos.0 < old(self)@.width,
            pos.1 < old(self)@.height,
            radius <= isize::MAX,
            pos.0 + radius / 2 <= isize::MAX,
            pos.1 + radius / 2 <= isize::MAX,
            2 * ((radius as int) / 2) * ((radius as int) / 2) <= isize::MAX,
        ensures
            final(self)@ == region_set(old(self)@, pos.0 as int, pos.1 as int, radius as int, value),
            final(self).wf(),
    {
        let ghost m0 = old(self)@;
        let ghost x0 = pos.0 as int;
        let ghost y0 = pos.1 as int;
        let rh: usize = radius / 2;
        let ghost ri = rh as int;
        if rh == 0 {
            self.set_value_at_pos(pos, value);
            return;
        }
        let r = rh as isize;
        proof {
            assert forall|i: int| !(#[trigger] brush_covers_upto(
                m0.width,
                m0.height,
                x0,
                y0,
                ri,
                -ri,
                -ri,
                i,
            )) by {
                lemma_covered_start_empty(m0.width, m0.height, x0, y0, ri, i);
            }
        }
        let mut ry: isize = -r;
        while ry < r
            invariant
                grid_wf(m0),
                self.wf(),
                -ri <= (ry as int) <= ri,
                1 <= ri,
                ri == (radius as int) / 2,
                (r as int) == ri,
                x0 == pos.0 as int,
                y0 == pos.1 as int,
                0 <= x0 < m0.width,
                0 <= y0 < m0.height,
                x0 + ri <= isize::MAX,
                y0 + ri <= isize::MAX,
                2 * ri * ri <= isize::MAX,
                self@.width == m0.width,
                self@.height == m0.height,
                self@.current_tick == m0.current_tick,
                self@.ticks_per_cycle == m0.ticks_per_cycle,
                self@.running == m0.running,
                self@.stats == m0.stats,
                self@.data.len() == m0.data.len(),
                self@.life.len() == m0.life.len(),
                painted_upto(m0, self@, x0, y0, ri, ry as int, -ri, value),
            decreases r - ry,
        {
            let mut rx: isize = -r;
            while rx < r
                invariant
                    grid_wf(m0),
                    self.wf(),
                    -ri <= (rx as int) <= ri,
                    -ri <= (ry as int) < ri,
                    1 <= ri,
                    ri == (radius as int) / 2,
                    (r as int) == ri,
                    x0 == pos.0 as int,
                    y0 == pos.1 as int,
                    0 <= x0 < m0.width,
                    0 <= y0 < m0.height,
                    x0 + ri <= isize::MAX,
                    y0 + ri <= isize::MAX,
                    2 * ri * ri <= isize::MAX,
                    self@.width == m0.width,
                    self@.height == m0.height,
                    self@.current_tick == m0.current_tick,
                    self@.ticks_per_cycle == m0.ticks_per_cycle,
                    self@.running == m0.running,
                    self@.stats == m0.stats,
                    self@.data.len() == m0.data.len(),
                    self@.life.len() == m0.life.len(),
                    painted_upto(m0, self@, x0, y0, ri, ry as int, rx as int, value),
                decreases r - rx,
            {
                proof {
                    assert(0 <= (rx as int) * (rx as int) && 0 <= (ry as int) * (ry as int) && (rx
                        as int) * (rx as int) + (ry as int) * (ry as int) <= isize::MAX && 0 <= ri
                        * ri <= isize::MAX) by (nonlinear_arith)
                        requires
                            -ri <= (rx as int) <= ri,
                            -ri <= (ry as int) <= ri,
                            2 * ri * ri <= isize::MAX,
                    ;
                }
                if rx * rx + ry * ry <= r * r {
                    let wrapped = self.wrap_positions((pos.0 as isize + rx, pos.1 as isize + ry));
                    self.set_value_at_pos(wrapped, value);
                    proof {
                        let j = cell_index(
                            m0.width,
                            wrap(x0 + rx as int, m0.width),
                            wrap(y0 + ry as int, m0.height),
                        );
                        lemma_cell_index_bound(
                            m0.width,
                            m0.height,
                            wrap(x0 + rx as int, m0.width),
                            wrap(y0 + ry as int, m0.height),
                        );
                        assert(in_brush(ri, rx as int, ry as int));
                        assert forall|i: int|
                            0 <= i < m0.data.len() implies (brush_covers_upto(
                            m0.width,
                            m0.height,
                            x0,
                            y0,
                            ri,
                            ry as int,
                            rx as int + 1,
                            i,
                        ) <==> (brush_covers_upto(
                            m0.width,
                            m0.height,
                            x0,
                            y0,
                            ri,
                            ry as int,
                            rx as int,
                            i,
                        ) || i == j)) by {
                            lemma_covered_paint_step(
                                m0.width,
                                m0.height,
                                x0,
                                y0,
                                ri,
                                ry as int,
                                rx as int,
                                i,
                            );
                        }
                        assert(painted_upto(m0, self@, x0, y0, ri, ry as int, rx as int + 1, value));
                    }
                } else {
                    proof {
                        assert(!in_brush(ri, rx as int, ry as int));
                        assert forall|i: int|
                            0 <= i < m0.data.len() implies (brush_covers_upto(
                            m0.width,
                            m0.height,
                            x0,
                            y0,
                            ri,
                            ry as int,
                            rx as int + 1,
                            i,
                        ) <==> brush_covers_upto(
                            m0.width,
                            m0.height,
                            x0,
                            y0,
                            ri,
                            ry as int,
                            rx as int,
                            i,
                        )) by {
                            lemma_covered_skip_step(
                                m0.width,
                                m0.height,
                                x0,
                                y0,
                                ri,
                                ry as int,
                                rx as int,
                                i,
                            );
                        }
                    }
                }
                rx = rx + 1;
            }
            proof {
                assert forall|i: int| 0 <= i < m0.data.len() implies (brush_covers_upto(
                    m0.width,
                    m0.height,
                    x0,
                    y0,
                    ri,
                    ry as int + 1,
                    -ri,
                    i,
                ) <==> brush_covers_upto(m0.width, m0.height, x0, y0, ri, ry as int, ri, i)) by {
                    lemma_covered_row_step(m0.width, m0.height, x0, y0, ri, ry as int, i);
                }
            }
            ry = ry + 1;
        }
        proof {
            assert forall|i: int| 0 <= i < m0.data.len() implies (brush_covers_upto(
                m0.width,
                m0.height,
                x0,
                y0,
                ri,
                ri,
                -ri,
                i,
            ) <==> brush_covers(m0.width, m0.height, x0, y0, ri, i)) by {
                lemma_covered_full(m0.width, m0.height, x0, y0, ri, i);
            }
            assert(self@ =~= region_set(m0, x0, y0, radius as int, value));
        }
    }

    /// One generation: every cell's next state follows the B3/S23 rule from
    /// one consistent snapshot of the previous grid, ages grow only on cells
    /// that stay alive (saturating at `MAX_LIFE`) and reset on dead ones,
    /// and the tick counter advances by one.
    pub fn tick(&mut self)
        requires
            old(self).wf(),
            old(self)@.current_tick < usize::MAX,
        ensures
            final(self)@ == tick_grid(old(self)@),
            final(self).wf(),
    {
        let ghost m0 = old(self)@;
        let n = self.width * self.height;
        let mut new_data: Vec<bool> = Vec::new();
        let mut idx: usize = 0;
        while idx < n
            invariant
                idx <= n,
                self.wf(),
                self@.width == m0.width,
                self@.height == m0.height,
                self@.data == m0.data,
                self@.current_tick == m0.current_tick,
                self@.ticks_per_cycle == m0.ticks_per_cycle,
                self@.running == m0.running,
                self@.stats == m0.stats,
                n == m0.width * m0.height,
                new_data@.len() == idx,
                forall|i: int|
                    0 <= i < idx ==> new_data@[i] == next_alive(m0.data, m0.width, m0.height, i),
                forall|i: int|
                    0 <= i < idx ==> self@.life[i] == next_life(
                        m0.data,
                        m0.life,
                        m0.width,
                        m0.height,
                        i,
                    ),
                forall|i: int| idx <= i < n ==> self@.life[i] == m0.life[i],
            decreases n - idx,
        {
            let alive = self.data[idx];
            let life = self.life[idx];
            let count = self.alive_neighbors_count_for_index(idx);
            let state = count == 3 || (alive && count == 2);
            new_data.push(state);
            if alive && state == alive {
                let new_life = if life + 1 >= MAX_LIFE {
                    MAX_LIFE
                } else {
                    life + 1
                };
                self.life.set(idx, new_life);
            } else {
                self.life.set(idx, 0);
            }
            idx = idx + 1;
        }
        self.data = new_data;
        self.current_tick = self.current_tick + 1;
        proof {
            assert(self@ =~= tick_grid(m0));
        }
    }

    /// One cycle: nothing at all while paused; otherwise exactly
    /// `ticks_per_cycle` generations in sequence, then one statistics
    /// recomputation from the resulting grid.
    pub fn cycle(&mut self)
        requires
            old(self).wf(),
            old(self)@.running ==> old(self)@.current_tick + old(self)@.ticks_per_cycle
                <= usize::MAX,
        ensures
            final(self)@ == cycle_grid(old(self)@),
            final(self).wf(),
    {
        let ghost m0 = old(self)@;
        if !self.running {
            return;
        }
        let total = self.ticks_per_cycle;
        let mut k: usize = 0;
        while k < total
            invariant
                k <= total,
                self.wf(),
                total == m0.ticks_per_cycle,
                m0.current_tick + total <= usize::MAX,
                grid_wf(m0),
                self@ == ticks_grid(m0, k as nat),
            decreases total - k,
        {
            proof {
                lemma_ticks_frame(m0, k as nat);
            }
            self.tick();
            k = k + 1;
        }
        let s = GameStats::from_state(self);
        self.stats = s;
        proof {
            lemma_ticks_frame(m0, total as nat);
            assert(self@ =~= cycle_grid(m0));
        }
    }
}

/// Whether the brush scan, walking the window row by row, has already
/// painted linear index `i` when it stands at offset `(rx_cur, ry_cur)`.
spec fn brush_covers_upto(
    width: int,
    height: int,
    x: int,
    y: int,
    r: int,
    ry_cur: int,
    rx_cur: int,
    i: int,
) -> bool {
    exists|rx: int, ry: int|
        in_brush(r, rx, ry) && (ry < ry_cur || (ry == ry_cur && rx < rx_cur)) && cell_index(
            width,
            wrap(x + rx, width),
            wrap(y + ry, height),
        ) == i
}

/// The two sides of the painting loop's invariant: every cell the scan has
/// already painted holds `value` with age zero, and every other cell still
/// holds its original state.
spec fn painted_upto(
    m0: GridModel,
    cur: GridModel,
    x: int,
    y: int,
    r: int,
    ry_cur: int,
    rx_cur: int,
    value: bool,
) -> bool {
    &&& forall|i: int|
        0 <= i < m0.data.len() && brush_covers_upto(m0.width, m0.height, x, y, r, ry_cur, rx_cur, i)
            ==> (cur.data[i] == value && cur.life[i] == 0)
    &&& forall|i: int|
        0 <= i < m0.data.len() && !brush_covers_upto(
            m0.width,
            m0.height,
            x,
            y,
            r,
            ry_cur,
            rx_cur,
            i,
        ) ==> (cur.data[i] == m0.data[i] && cur.life[i] == m0.life[i])
}

/// At the start of the scan nothing has been painted yet.
proof fn lemma_covered_start_empty(width: int, height: int, x: int, y: int, r: int, i: int)
    ensures
        !brush_covers_upto(width, height, x, y, r, -r, -r, i),
{
    if brush_covers_upto(width, height, x, y, r, -r, -r, i) {
        let (rx, ry) = choose|rx: int, ry: int|
            in_brush(r, rx, ry) && (ry < -r || (ry == -r && rx < -r)) && cell_index(
                width,
                wrap(x + rx, width),
                wrap(y + ry, height),
            ) == i;
        assert(false);
    }
}

/// Stepping past an offset outside the disk paints nothing new.
proof fn lemma_covered_skip_step(
    width: int,
    height: int,
    x: int,
    y: int,
    r: int,
    ry_cur: int,
    rx_cur: int,
    i: int,
)
    requires
        !in_brush(r, rx_cur, ry_cur),
    ensures
        brush_covers_upto(width, height, x, y, r, ry_cur, rx_cur + 1, i) <==> brush_covers_upto(
            width,
            height,
            x,
            y,
            r,
            ry_cur,
            rx_cur,
            i,
        ),
{
    if brush_covers_upto(width, height, x, y, r, ry_cur, rx_cur + 1, i) {
        let (rx, ry) = choose|rx: int, ry: int|
            in_brush(r, rx, ry) && (ry < ry_cur || (ry == ry_cur && rx < rx_cur + 1)) && cell_index(
                width,
                wrap(x + rx, width),
                wrap(y + ry, height),
            ) == i;
        assert(!(rx == rx_cur && ry == ry_cur));
        assert(in_brush(r, rx, ry) && (ry < ry_cur || (ry == ry_cur && rx < rx_cur)) && cell_index(
            width,
            wrap(x + rx, width),
            wrap(y + ry, height),
        ) == i);
    }
    if brush_covers_upto(width, height, x, y, r, ry_cur, rx_cur, i) {
        let (rx, ry) = choose|rx: int, ry: int|
            in_brush(r, rx, ry) && (ry < ry_cur || (ry == ry_cur && rx < rx_cur)) && cell_index(
                width,
                wrap(x + rx, width),
                wrap(y + ry, height),
            ) == i;
        assert(in_brush(r, rx, ry) && (ry < ry_cur || (ry == ry_cur && rx < rx_cur + 1))
            && cell_index(width, wrap(x + rx, width), wrap(y + ry, height)) == i);
    }
}

/// Stepping past an offset inside the disk paints exactly the cell that
/// offset wraps to, on top of everything painted before.
proof fn lemma_covered_paint_step(
    width: int,
    height: int,
    x: int,
    y: int,
    r: int,
    ry_cur: int,
    rx_cur: int,
    i: int,
)
    requires
        in_brush(r, rx_cur, ry_cur),
    ensures
        brush_covers_upto(width, height, x, y, r, ry_cur, rx_cur + 1, i) <==> (brush_covers_upto(
            width,
            height,
            x,
            y,
            r,
            ry_cur,
            rx_cur,
            i,
        ) || i == cell_index(width, wrap(x + rx_cur, width), wrap(y + ry_cur, height))),
{
    if brush_covers_upto(width, height, x, y, r, ry_cur, rx_cur + 1, i) {
        let (rx, ry) = choose|rx: int, ry: int|
            in_brush(r, rx, ry) && (ry < ry_cur || (ry == ry_cur && rx < rx_cur + 1)) && cell_index(
                width,
                wrap(x + rx, width),
                wrap(y + ry, height),
            ) == i;
        if !(rx == rx_cur && ry == ry_cur) {
            assert(in_brush(r, rx, ry) && (ry < ry_cur || (ry == ry_cur && rx < rx_cur))
                && cell_index(width, wrap(x + rx, width), wrap(y + ry, height)) == i);
        }
    }
    if brush_covers_upto(width, height, x, y, r, ry_cur, rx_cur, i) {
        let (rx, ry) = choose|rx: int, ry: int|
            in_brush(r, rx, ry) && (ry < ry_cur || (ry == ry_cur && rx < rx_cur)) && cell_index(
                width,
                wrap(x + rx, width),
                wrap(y + ry, height),
            ) == i;
        assert(in_brush(r, rx, ry) && (ry < ry_cur || (ry == ry_cur && rx < rx_cur + 1))
            && cell_index(width, wrap(x + rx, width), wrap(y + ry, height)) == i);
    }
    if i == cell_index(width, wrap(x + rx_cur, width), wrap(y + ry_cur, height)) {
        assert(in_brush(r, rx_cur, ry_cur) && (ry_cur < ry_cur || (ry_cur == ry_cur && rx_cur
            < rx_cur + 1)) && cell_index(width, wrap(x + rx_cur, width), wrap(y + ry_cur, height))
            == i);
        assert(brush_covers_upto(width, height, x, y, r, ry_cur, rx_cur + 1, i));
    }
}

/// Finishing a row of the scan is the same as standing at the start of the
/// next row.
proof fn lemma_covered_row_step(
    width: int,
    height: int,
    x: int,
    y: int,
    r: int,
    ry_cur: int,
    i: int,
)
    ensures
        brush_covers_upto(width, height, x, y, r, ry_cur + 1, -r, i) <==> brush_covers_upto(
            width,
            height,
            x,
            y,
            r,
            ry_cur,
            r,
            i,
        ),
{
    if brush_covers_upto(width, height, x, y, r, ry_cur + 1, -r, i) {
        let (rx, ry) = choose|rx: int, ry: int|
            in_brush(r, rx, ry) && (ry < ry_cur + 1 || (ry == ry_cur + 1 && rx < -r)) && cell_index(
                width,
                wrap(x + rx, width),
                wrap(y + ry, height),
            ) == i;
        assert(in_brush(r, rx, ry) && (ry < ry_cur || (ry == ry_cur && rx < r)) && cell_index(
            width,
            wrap(x + rx, width),
            wrap(y + ry, height),
        ) == i);
    }
    if brush_covers_upto(width, height, x, y, r, ry_cur, r, i) {
        let (rx, ry) = choose|rx: int, ry: int|
            in_brush(r, rx, ry) && (ry < ry_cur || (ry == ry_cur && rx < r)) && cell_index(
                width,
                wrap(x + rx, width),
                wrap(y + ry, height),
            ) == i;
        assert(in_brush(r, rx, ry) && (ry < ry_cur + 1 || (ry == ry_cur + 1 && rx < -r))
            && cell_index(width, wrap(x + rx, width), wrap(y + ry, height)) == i);
    }
}

/// A finished scan has painted exactly the cells the brush covers.
proof fn lemma_covered_full(width: int, height: int, x: int, y: int, r: int, i: int)
    ensures
        brush_covers_upto(width, height, x, y, r, r, -r, i) <==> brush_covers(
            width,
            height,
            x,
            y,
            r,
            i,
        ),
{
    if brush_covers_upto(width, height, x, y, r, r, -r, i) {
        let (rx, ry) = choose|rx: int, ry: int|
            in_brush(r, rx, ry) && (ry < r || (ry == r && rx < -r)) && cell_index(
                width,
                wrap(x + rx, width),
                wrap(y + ry, height),
            ) == i;
        assert(in_brush(r, rx, ry) && cell_index(width, wrap(x + rx, width), wrap(y + ry, height))
            == i);
    }
    if brush_covers(width, height, x, y, r, i) {
        let (rx, ry) = choose|rx: int, ry: int|
            in_brush(r, rx, ry) && cell_index(width, wrap(x + rx, width), wrap(y + ry, height))
                == i;
        assert(in_brush(r, rx, ry) && (ry < r || (ry == r && rx < -r)) && cell_index(
            width,
            wrap(x + rx, width),
            wrap(y + ry, height),
        ) == i);
    }
}

/// Relies on `rand::random::<bool>()` sampling the standard uniform
/// distribution on `bool`: a fair draw, independent per call. The value is
/// random, so the contract promises nothing about it.
#[verifier::external_body]
fn random_bool() -> bool {
    rand::random::<bool>()
}

} // verus!
