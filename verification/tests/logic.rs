//! Tests of the simulation engine: coordinate mapping, neighbor counting,
//! the B3/S23 rule, aging, pausing, region painting and statistics.

use caw::logic::GameState;
use caw::logic::GameStats;
use caw::logic::GridError;

const MAX_LIFE: u8 = 200;

#[test]
fn test_pos_to_index() {
    let state = GameState::new((10, 10)).unwrap();
    assert_eq!(state.pos_to_index((0, 0)), 0);
    assert_eq!(state.pos_to_index((9, 0)), 9);
    assert_eq!(state.pos_to_index((0, 9)), 90);
    assert_eq!(state.pos_to_index((9, 9)), 99);
}

#[test]
fn test_index_to_pos() {
    let state = GameState::new((10, 10)).unwrap();
    assert_eq!(state.index_to_pos(0), (0, 0));
    assert_eq!(state.index_to_pos(9), (9, 0));
    assert_eq!(state.index_to_pos(90), (0, 9));
    assert_eq!(state.index_to_pos(99), (9, 9));
}

#[test]
fn test_alive_neighbors_count_for_index() {
    let mut state = GameState::new((3, 3)).unwrap();

    // $+-
    // ++-
    // --+
    // => 4
    {
        state.clear();
        state.set_value_at_pos((1, 0), true);
        state.set_value_at_pos((0, 1), true);
        state.set_value_at_pos((1, 1), true);
        state.set_value_at_pos((2, 2), true);
        assert_eq!(state.alive_neighbors_count_for_index(0), 4);
    }

    // -+-
    // +$-
    // --+
    // => 3
    {
        state.clear();
        state.set_value_at_pos((1, 0), true);
        state.set_value_at_pos((0, 1), true);
        state.set_value_at_pos((2, 2), true);
        assert_eq!(
            state.alive_neighbors_count_for_index(state.pos_to_index((1, 1))),
            3
        );
    }
}

#[test]
fn new_rejects_zero_dimensions() {
    assert!(matches!(GameState::new((0, 5)), Err(GridError::InvalidDimensions)));
    assert!(matches!(GameState::new((5, 0)), Err(GridError::InvalidDimensions)));
    assert!(matches!(GameState::new((0, 0)), Err(GridError::InvalidDimensions)));
    assert!(GameState::new((1, 1)).is_ok());
}

#[test]
fn new_initial_state() {
    let state = GameState::new((4, 3)).unwrap();
    assert_eq!(state.width, 4);
    assert_eq!(state.height, 3);
    assert_eq!(state.size(), 12);
    assert_eq!(state.data, vec![false; 12]);
    assert_eq!(state.life, vec![0u8; 12]);
    assert_eq!(state.current_tick, 0);
    assert_eq!(state.ticks_per_cycle, 1);
    assert!(state.running);
    assert_eq!(state.stats.moving, 0);
    assert_eq!(state.stats.stopped, 0);
}

#[test]
fn clear_twice_equals_once() {
    let mut state = GameState::new((6, 6)).unwrap();
    state.randomize();
    state.tick();
    state.clear();
    let data_once = state.data.clone();
    let life_once = state.life.clone();
    let tick_once = state.current_tick;
    state.clear();
    assert_eq!(state.data, data_once);
    assert_eq!(state.life, life_once);
    assert_eq!(state.current_tick, tick_once);
    assert!(state.data.iter().all(|c| !c));
    assert!(state.life.iter().all(|l| *l == 0));
}

#[test]
fn ages_positive_only_on_live_cells() {
    let mut state = GameState::new((8, 8)).unwrap();
    state.randomize();
    for _ in 0..20 {
        state.tick();
        for i in 0..state.size() {
            if state.life[i] > 0 {
                assert!(state.data[i]);
            }
            assert!(state.life[i] <= MAX_LIFE);
        }
    }
}

#[test]
fn age_saturates_at_max_life() {
    // A 2x2 block on a 4x4 torus is a still life: every block cell keeps
    // exactly three live neighbors, so it survives every tick and its age
    // climbs until it saturates.
    let mut state = GameState::new((4, 4)).unwrap();
    state.set_value_at_pos((1, 1), true);
    state.set_value_at_pos((2, 1), true);
    state.set_value_at_pos((1, 2), true);
    state.set_value_at_pos((2, 2), true);
    for _ in 0..210 {
        state.tick();
    }
    let idx = state.pos_to_index((1, 1));
    assert!(state.data[idx]);
    assert_eq!(state.life[idx], MAX_LIFE);
    let stats = GameStats::from_state(&state);
    assert_eq!(stats.stopped, 4);
    assert_eq!(stats.moving, 0);
}

#[test]
fn one_cell_torus_is_its_own_eight_neighbors() {
    // On a 1x1 torus every compass offset wraps back to the only cell, so
    // a live cell counts eight live neighbors and dies on the next tick.
    let mut state = GameState::new((1, 1)).unwrap();
    state.set_value_at_pos((0, 0), true);
    assert_eq!(state.alive_neighbors_count_for_index(0), 8);
    state.tick();
    assert!(!state.data[0]);
    assert_eq!(state.life[0], 0);
}

#[test]
fn corner_neighbors_wrap_around() {
    // Only the three far corners are alive; the cell at (0, 0) sees all of
    // them through the wrapped edges.
    let mut state = GameState::new((3, 3)).unwrap();
    state.set_value_at_pos((2, 2), true);
    state.set_value_at_pos((2, 0), true);
    state.set_value_at_pos((0, 2), true);
    assert_eq!(state.alive_neighbors_count_for_index(0), 3);
}

#[test]
fn blinker_oscillates_with_period_two() {
    let mut state = GameState::new((5, 5)).unwrap();
    state.set_value_at_pos((1, 2), true);
    state.set_value_at_pos((2, 2), true);
    state.set_value_at_pos((3, 2), true);
    let horizontal = state.data.clone();

    state.tick();
    let mut expected = vec![false; 25];
    expected[state.pos_to_index((2, 1))] = true;
    expected[state.pos_to_index((2, 2))] = true;
    expected[state.pos_to_index((2, 3))] = true;
    assert_eq!(state.data, expected);

    state.tick();
    assert_eq!(state.data, horizontal);
}

#[test]
fn paused_cycle_changes_nothing() {
    let mut state = GameState::new((5, 5)).unwrap();
    state.set_value_at_pos((1, 1), true);
    state.set_value_at_pos((2, 1), true);
    state.set_value_at_pos((1, 2), true);
    state.set_value_at_pos((2, 2), true);
    state.running = false;
    let data_before = state.data.clone();
    let life_before = state.life.clone();
    let tick_before = state.current_tick;
    state.cycle();
    assert_eq!(state.data, data_before);
    assert_eq!(state.life, life_before);
    assert_eq!(state.current_tick, tick_before);
    // The statistics are not recomputed either: the four live cells stay
    // uncounted.
    assert_eq!(state.stats.moving, 0);
    assert_eq!(state.stats.stopped, 0);
}

#[test]
fn small_radius_affects_exactly_one_cell() {
    for radius in [0usize, 1usize] {
        let mut state = GameState::new((7, 7)).unwrap();
        state.set_value_at_pos_with_radius((3, 3), radius, true);
        let idx = state.pos_to_index((3, 3));
        for i in 0..state.size() {
            assert_eq!(state.data[i], i == idx);
            assert_eq!(state.life[i], 0);
        }
    }
}

#[test]
fn region_paints_a_disk() {
    // Radius six halves to three: offsets (rx, ry) of [-3, 3) x [-3, 3)
    // with rx² + ry² <= 9 around (5, 5).
    let mut state = GameState::new((11, 11)).unwrap();
    state.set_value_at_pos_with_radius((5, 5), 6, true);
    let mut expected = vec![false; 121];
    for ry in -3i32..3 {
        for rx in -3i32..3 {
            if rx * rx + ry * ry <= 9 {
                let x = (5 + rx) as usize;
                let y = (5 + ry) as usize;
                expected[state.pos_to_index((x, y))] = true;
            }
        }
    }
    assert_eq!(state.data, expected);
}

#[test]
fn region_wraps_around_the_edges() {
    // Painting near the origin wraps onto the far edges of the torus.
    let mut state = GameState::new((9, 9)).unwrap();
    state.set_value_at_pos_with_radius((0, 0), 4, true);
    // Radius four halves to two: offsets of [-2, 2) x [-2, 2) with
    // rx² + ry² <= 4.
    assert!(state.data[state.pos_to_index((8, 8))]);
    assert!(state.data[state.pos_to_index((8, 0))]);
    assert!(state.data[state.pos_to_index((0, 8))]);
    assert!(state.data[state.pos_to_index((0, 0))]);
    assert!(state.data[state.pos_to_index((1, 0))]);
    assert!(!state.data[state.pos_to_index((2, 0))]);
    assert!(!state.data[state.pos_to_index((4, 4))]);
}

#[test]
fn stats_partition_live_cells_after_cycle() {
    let mut state = GameState::new((12, 12)).unwrap();
    state.randomize();
    state.set_ticks_per_cycle(3);
    state.cycle();
    let alive = state.data.iter().filter(|c| **c).count();
    assert_eq!(state.stats.moving + state.stats.stopped, alive);
    assert_eq!(state.current_tick, 3);
}

#[test]
fn cycle_runs_ticks_per_cycle_ticks() {
    let mut state = GameState::new((5, 5)).unwrap();
    state.set_ticks_per_cycle(4);
    state.cycle();
    assert_eq!(state.current_tick, 4);
    state.set_ticks_per_cycle(0);
    state.cycle();
    assert_eq!(state.current_tick, 4);
}

#[test]
fn randomize_resets_ages_and_keeps_counters() {
    let mut state = GameState::new((10, 10)).unwrap();
    state.tick();
    state.randomize();
    assert_eq!(state.data.len(), 100);
    assert_eq!(state.life, vec![0u8; 100]);
    assert_eq!(state.current_tick, 1);
    assert!(state.running);
}

#[test]
fn set_value_resets_age_even_for_same_value() {
    let mut state = GameState::new((4, 4)).unwrap();
    state.set_value_at_pos((1, 1), true);
    state.set_value_at_pos((2, 1), true);
    state.set_value_at_pos((1, 2), true);
    state.set_value_at_pos((2, 2), true);
    state.tick();
    let idx = state.pos_to_index((1, 1));
    assert_eq!(state.life[idx], 1);
    state.set_value_at_pos((1, 1), true);
    assert_eq!(state.life[idx], 0);
    assert!(state.data[idx]);
}

#[test]
fn from_state_counts_moving_and_stopped() {
    let mut state = GameState::new((3, 3)).unwrap();
    state.set_value_at_pos((0, 0), true);
    state.set_value_at_pos((1, 1), true);
    state.life[0] = MAX_LIFE;
    state.life[4] = 7;
    let stats = GameStats::from_state(&state);
    assert_eq!(stats.stopped, 1);
    assert_eq!(stats.moving, 1);
    let empty = GameStats::new();
    assert_eq!(empty.moving, 0);
    assert_eq!(empty.stopped, 0);
}
