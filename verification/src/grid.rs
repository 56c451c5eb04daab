//! The mathematical model of the grid: coordinate mapping, toroidal
//! wrapping, the neighbor rule, aging, and the statistics summary.
//!
//! Every exec operation of the engine promises that the state after the
//! call equals one of the transition functions below applied to the state
//! before it; the laws of the engine are proved once, over these models.

use vstd::prelude::*;
use vstd::arithmetic::div_mod::lemma_fundamental_div_mod;
use vstd::arithmetic::div_mod::lemma_fundamental_div_mod_converse;
use vstd::arithmetic::div_mod::lemma_mod_bound;
use vstd::arithmetic::div_mod::lemma_multiply_divide_lt;
use vstd::arithmetic::mul::lemma_mul_is_commutative;

verus! {

/// The saturation bound of the per-cell age counter.
pub const MAX_LIFE: u8 = 200;

/// Row-major linear index of the cell at `(x, y)` on a grid of the given width.
pub open spec fn cell_index(width: int, x: int, y: int) -> int {
    x + y * width
}

/// The column of the cell stored at linear index `i`.
pub open spec fn cell_x(width: int, i: int) -> int {
    i % width
}

/// The row of the cell stored at linear index `i`.
pub open spec fn cell_y(width: int, i: int) -> int {
    i / width
}

/// Floor-style modulus: for `m > 0` the result is always in `[0, m)`,
/// so negative coordinates wrap to the opposite edge of the torus.
pub open spec fn wrap(v: int, m: int) -> int {
    v % m
}

/// The grid as mathematics: what the engine's contracts speak of.
#[verifier::ext_equal]
pub ghost struct GridModel {
    pub width: int,
    pub height: int,
    /// Live/dead state of each cell, row-major.
    pub data: Seq<bool>,
    /// Consecutive ticks each cell has stayed alive, saturating at `MAX_LIFE`.
    pub life: Seq<u8>,
    pub current_tick: int,
    pub ticks_per_cycle: int,
    pub running: bool,
    pub stats: StatsModel,
}

/// The statistics summary: live cells still aging vs. saturated ones.
#[verifier::ext_equal]
pub ghost struct StatsModel {
    pub moving: int,
    pub stopped: int,
}

/// Well-formedness of a grid: positive dimensions that fit the machine,
/// both sequences of length `width * height`, every age at most `MAX_LIFE`,
/// and a positive age only on a live cell.
pub open spec fn grid_wf(m: GridModel) -> bool {
    &&& 1 <= m.width
    &&& 1 <= m.height
    &&& m.width * m.height <= usize::MAX
    &&& m.width <= isize::MAX
    &&& m.height <= isize::MAX
    &&& m.data.len() == m.width * m.height
    &&& m.life.len() == m.width * m.height
    &&& forall|i: int| 0 <= i < m.life.len() ==> m.life[i] <= MAX_LIFE
    &&& forall|i: int| 0 <= i < m.life.len() ==> (m.life[i] > 0 ==> m.data[i])
}

/// The state a freshly constructed grid is in: everything dead, all ages
/// zero, one tick per cycle, running.
pub open spec fn initial_grid(width: int, height: int) -> GridModel {
    GridModel {
        width,
        height,
        data: Seq::new((width * height) as nat, |i: int| false),
        life: Seq::new((width * height) as nat, |i: int| 0u8),
        current_tick: 0,
        ticks_per_cycle: 1,
        running: true,
        stats: StatsModel { moving: 0, stopped: 0 },
    }
}

/// Whether the cell reached from `(x, y)` after toroidal wrapping is alive.
pub open spec fn wrapped_alive(data: Seq<bool>, width: int, height: int, x: int, y: int) -> bool {
    data[cell_index(width, wrap(x, width), wrap(y, height))]
}

/// One for a live cell, zero for a dead one: the unit of every count here.
pub open spec fn bool_to_int(b: bool) -> int {
    if b { 1 } else { 0 }
}

/// How many of the eight compass neighbors of `(x, y)` are alive, each
/// neighbor position wrapped around the torus first.
pub open spec fn neighbor_count(data: Seq<bool>, width: int, height: int, x: int, y: int) -> int {
    bool_to_int(wrapped_alive(data, width, height, x - 1, y))
        + bool_to_int(wrapped_alive(data, width, height, x - 1, y + 1))
        + bool_to_int(wrapped_alive(data, width, height, x, y + 1))
        + bool_to_int(wrapped_alive(data, width, height, x + 1, y + 1))
        + bool_to_int(wrapped_alive(data, width, height, x + 1, y))
        + bool_to_int(wrapped_alive(data, width, height, x + 1, y - 1))
        + bool_to_int(wrapped_alive(data, width, height, x, y - 1))
        + bool_to_int(wrapped_alive(data, width, height, x - 1, y - 1))
}

/// The B3/S23 rule: the cell at index `i` lives in the next generation iff
/// it has exactly three live neighbors, or it is alive and has exactly two.
pub open spec fn next_alive(data: Seq<bool>, width: int, height: int, i: int) -> bool {
    let n = neighbor_count(data, width, height, cell_x(width, i), cell_y(width, i));
    n == 3 || (data[i] && n == 2)
}

/// One more tick of age, saturating at `MAX_LIFE`.
pub open spec fn aged(life: u8) -> u8 {
    if life + 1 >= MAX_LIFE { MAX_LIFE } else { (life + 1) as u8 }
}

/// The age of cell `i` after a tick: it grows only while the cell stays
/// alive across the tick, and resets to zero the moment the cell is dead.
pub open spec fn next_life(data: Seq<bool>, life: Seq<u8>, width: int, height: int, i: int) -> u8 {
    if data[i] && next_alive(data, width, height, i) {
        aged(life[i])
    } else {
        0u8
    }
}

/// One generation: every next state is computed from the same snapshot of
/// the previous one, and the tick counter advances by one.
pub open spec fn tick_grid(m: GridModel) -> GridModel {
    GridModel {
        data: Seq::new(m.data.len(), |i: int| next_alive(m.data, m.width, m.height, i)),
        life: Seq::new(m.life.len(), |i: int| next_life(m.data, m.life, m.width, m.height, i)),
        current_tick: m.current_tick + 1,
        ..m
    }
}

/// `n` generations in sequence.
pub open spec fn ticks_grid(m: GridModel, n: nat) -> GridModel
    decreases n,
{
    if n == 0 {
        m
    } else {
        tick_grid(ticks_grid(m, (n - 1) as nat))
    }
}

/// Everything dead and every age zero; the tick counter, the cycle length
/// and the running flag are untouched.
pub open spec fn cleared(m: GridModel) -> GridModel {
    GridModel {
        data: Seq::new((m.width * m.height) as nat, |i: int| false),
        life: Seq::new((m.width * m.height) as nat, |i: int| 0u8),
        ..m
    }
}

/// One cell overwritten from outside: its state becomes `value` and its
/// age resets to zero unconditionally.
pub open spec fn cell_set(m: GridModel, x: int, y: int, value: bool) -> GridModel {
    GridModel {
        data: m.data.update(cell_index(m.width, x, y), value),
        life: m.life.update(cell_index(m.width, x, y), 0u8),
        ..m
    }
}

/// Whether the offset `(rx, ry)` lies in the brush of half-width `r`: the
/// square window `[-r, r)` in both axes, cut to the disk `rx² + ry² <= r²`.
pub open spec fn in_brush(r: int, rx: int, ry: int) -> bool {
    &&& -r <= rx < r
    &&& -r <= ry < r
    &&& rx * rx + ry * ry <= r * r
}

/// Whether painting the brush of half-width `r` centered on `(x, y)`
/// touches the cell at linear index `i`, wrapping around the torus.
pub open spec fn brush_covers(width: int, height: int, x: int, y: int, r: int, i: int) -> bool {
    exists|rx: int, ry: int|
        in_brush(r, rx, ry) && cell_index(width, wrap(x + rx, width), wrap(y + ry, height)) == i
}

/// A region write of the given radius: for a radius below two it is exactly
/// a single-cell write; otherwise every cell the brush covers takes `value`
/// and age zero, and every other cell keeps its state.
pub open spec fn region_set(m: GridModel, x: int, y: int, radius: int, value: bool) -> GridModel {
    let r = radius / 2;
    if r == 0 {
        cell_set(m, x, y, value)
    } else {
        GridModel {
            data: Seq::new(
                m.data.len(),
                |i: int| if brush_covers(m.width, m.height, x, y, r, i) { value } else { m.data[i] },
            ),
            life: Seq::new(
                m.life.len(),
                |i: int| if brush_covers(m.width, m.height, x, y, r, i) { 0u8 } else { m.life[i] },
            ),
            ..m
        }
    }
}

/// How many of the first `k` cells are alive and still aging (age below
/// `MAX_LIFE`).
pub open spec fn moving_count(data: Seq<bool>, life: Seq<u8>, k: int) -> int
    decreases k,
{
    if k <= 0 {
        0
    } else {
        moving_count(data, life, k - 1) + bool_to_int(data[k - 1] && life[k - 1] != MAX_LIFE)
    }
}

/// How many of the first `k` cells are alive with a saturated age.
pub open spec fn stopped_count(data: Seq<bool>, life: Seq<u8>, k: int) -> int
    decreases k,
{
    if k <= 0 {
        0
    } else {
        stopped_count(data, life, k - 1) + bool_to_int(data[k - 1] && life[k - 1] == MAX_LIFE)
    }
}

/// How many of the first `k` cells are alive.
pub open spec fn alive_count(data: Seq<bool>, k: int) -> int
    decreases k,
{
    if k <= 0 {
        0
    } else {
        alive_count(data, k - 1) + bool_to_int(data[k - 1])
    }
}

/// The statistics summary derived from a grid: each live cell counted as
/// moving or stopped by whether its age has saturated.
pub open spec fn stats_of(data: Seq<bool>, life: Seq<u8>) -> StatsModel {
    StatsModel {
        moving: moving_count(data, life, data.len() as int),
        stopped: stopped_count(data, life, data.len() as int),
    }
}

/// One cycle: nothing at all while paused; otherwise `ticks_per_cycle`
/// generations followed by a single statistics recomputation.
pub open spec fn cycle_grid(m: GridModel) -> GridModel {
    if !m.running {
        m
    } else {
        let t = ticks_grid(m, m.ticks_per_cycle as nat);
        GridModel { stats: stats_of(t.data, t.life), ..t }
    }
}

/// The linear index of an in-bounds position lies within the grid.
pub proof fn lemma_cell_index_bound(width: int, height: int, x: int, y: int)
    requires
        1 <= width,
        1 <= height,
        0 <= x < width,
        0 <= y < height,
    ensures
        0 <= cell_index(width, x, y) < width * height,
{
    assert(0 <= x + y * width < width * height) by (nonlinear_arith)
        requires
            1 <= width,
            1 <= height,
            0 <= x < width,
            0 <= y < height,
    ;
}

/// Taking the linear index of an in-bounds position and mapping it back
/// yields the position again.
pub proof fn lemma_pos_index_inverse(width: int, height: int, x: int, y: int)
    requires
        1 <= width,
        1 <= height,
        0 <= x < width,
        0 <= y < height,
    ensures
        cell_x(width, cell_index(width, x, y)) == x,
        cell_y(width, cell_index(width, x, y)) == y,
{
    lemma_fundamental_div_mod_converse(x + y * width, width, y, x);
}

/// Mapping a valid linear index to its position and back yields the index
/// again, and the position is in bounds.
pub proof fn lemma_index_pos_inverse(width: int, height: int, i: int)
    requires
        1 <= width,
        1 <= height,
        0 <= i < width * height,
    ensures
        cell_index(width, cell_x(width, i), cell_y(width, i)) == i,
        0 <= cell_x(width, i) < width,
        0 <= cell_y(width, i) < height,
{
    lemma_fundamental_div_mod(i, width);
    lemma_mul_is_commutative(width, i / width);
    lemma_mod_bound(i, width);
    lemma_multiply_divide_lt(i, width, height);
}

/// Ticks leave the dimensions, the cycle length, the running flag and the
/// statistics alone, advance the tick counter by one per generation, and
/// keep the lengths of both sequences.
pub proof fn lemma_ticks_frame(m: GridModel, n: nat)
    ensures
        ticks_grid(m, n).width == m.width,
        ticks_grid(m, n).height == m.height,
        ticks_grid(m, n).ticks_per_cycle == m.ticks_per_cycle,
        ticks_grid(m, n).running == m.running,
        ticks_grid(m, n).stats == m.stats,
        ticks_grid(m, n).current_tick == m.current_tick + n,
        ticks_grid(m, n).data.len() == m.data.len(),
        ticks_grid(m, n).life.len() == m.life.len(),
    decreases n,
{
    if n > 0 {
        lemma_ticks_frame(m, (n - 1) as nat);
    }
}

/// Clearing a grid twice leaves exactly the state one clearing leaves.
pub proof fn lemma_clear_idempotent(m: GridModel)
    ensures
        cleared(cleared(m)) == cleared(m),
{
    assert(cleared(cleared(m)) =~= cleared(m));
}

/// A tick preserves well-formedness; in particular, after any tick every
/// cell with a positive age is alive, and no age exceeds `MAX_LIFE`.
pub proof fn lemma_tick_preserves_wf(m: GridModel)
    requires
        grid_wf(m),
    ensures
        grid_wf(tick_grid(m)),
{
}

/// Well-formedness holds after any number of ticks: ages stay bounded by
/// `MAX_LIFE` and positive only on live cells, whatever the tick count.
pub proof fn lemma_ticks_preserve_wf(m: GridModel, n: nat)
    requires
        grid_wf(m),
    ensures
        grid_wf(ticks_grid(m, n)),
    decreases n,
{
    if n > 0 {
        lemma_ticks_preserve_wf(m, (n - 1) as nat);
        lemma_tick_preserves_wf(ticks_grid(m, (n - 1) as nat));
    }
}

/// After any number of ticks, a cell with a positive age is alive.
pub proof fn lemma_positive_age_implies_alive(m: GridModel, n: nat, i: int)
    requires
        grid_wf(m),
        0 <= i < m.width * m.height,
    ensures
        ticks_grid(m, n).life[i] > 0 ==> ticks_grid(m, n).data[i],
{
    lemma_ticks_preserve_wf(m, n);
    lemma_ticks_frame(m, n);
}

/// After any number of ticks, no age exceeds `MAX_LIFE`.
pub proof fn lemma_age_bounded(m: GridModel, n: nat, i: int)
    requires
        grid_wf(m),
        0 <= i < m.width * m.height,
    ensures
        ticks_grid(m, n).life[i] <= MAX_LIFE,
{
    lemma_ticks_preserve_wf(m, n);
    lemma_ticks_frame(m, n);
}

/// A cycle on a paused grid changes nothing: not the cells, not the ages,
/// not the tick counter, and not the statistics.
pub proof fn lemma_paused_cycle_is_noop(m: GridModel)
    requires
        !m.running,
    ensures
        cycle_grid(m) == m,
{
}

/// A region write with radius zero or one is exactly a single-cell write.
pub proof fn lemma_small_radius_sets_one_cell(m: GridModel, x: int, y: int, radius: int, value: bool)
    requires
        0 <= radius <= 1,
    ensures
        region_set(m, x, y, radius, value) == cell_set(m, x, y, value),
{
}

/// The moving and the stopped cells partition the live cells: over any
/// prefix the two counts sum to the count of live cells.
pub proof fn lemma_stats_partition(data: Seq<bool>, life: Seq<u8>, k: int)
    requires
        k <= data.len(),
        life.len() == data.len(),
    ensures
        moving_count(data, life, k) + stopped_count(data, life, k) == alive_count(data, k),
    decreases k,
{
    if k > 0 {
        lemma_stats_partition(data, life, k - 1);
    }
}

/// After a cycle on a running grid, the statistics sum to the number of
/// live cells of the grid the cycle produced.
pub proof fn lemma_cycle_stats_total(m: GridModel)
    requires
        grid_wf(m),
        m.running,
        m.ticks_per_cycle >= 0,
    ensures
        cycle_grid(m).stats.moving + cycle_grid(m).stats.stopped
            == alive_count(cycle_grid(m).data, cycle_grid(m).data.len() as int),
{
    let t = ticks_grid(m, m.ticks_per_cycle as nat);
    lemma_ticks_preserve_wf(m, m.ticks_per_cycle as nat);
    lemma_stats_partition(t.data, t.life, t.data.len() as int);
}

} // verus!
