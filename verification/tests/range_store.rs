use postflop_core::range::{
    range_clear, range_get_weights, range_invert, range_num_combos, range_raw_data, range_update,
    RangeGrid, RangeManager, WEIGHT_SCALE,
};

#[test]
fn write_then_read_round_trips_on_every_cell() {
    let mut rm = RangeManager::new();
    for player in 0..6usize {
        for row in 0..13u8 {
            for col in 0..13u8 {
                let w = (row as u32 * 13 + col as u32) * 1000 + player as u32;
                range_update(&mut rm, player, row, col, w);
                let grid = range_get_weights(&rm, player);
                assert_eq!(grid[row as usize * 13 + col as usize], w);
            }
        }
    }
}

#[test]
fn setters_take_one_based_ranks_and_getters_zero_based() {
    let mut g = RangeGrid::new();
    g.set_weight_pair(13, WEIGHT_SCALE);
    assert_eq!(g.get_weight_pair(12), WEIGHT_SCALE);
    g.set_weight_suited(13, 12, 777);
    assert_eq!(g.get_weight_suited(12, 11), 777);
    g.set_weight_offsuit(13, 12, 888);
    assert_eq!(g.get_weight_offsuit(12, 11), 888);
}

#[test]
fn invert_is_involutive() {
    let mut rm = RangeManager::new();
    range_update(&mut rm, 1, 0, 0, WEIGHT_SCALE);
    range_update(&mut rm, 1, 3, 7, 250000);
    range_update(&mut rm, 1, 9, 2, 999999);
    let before = range_get_weights(&rm, 1);
    range_invert(&mut rm, 1);
    range_invert(&mut rm, 1);
    assert_eq!(range_get_weights(&rm, 1), before);
}

#[test]
fn invert_flips_weights_elementwise() {
    let mut rm = RangeManager::new();
    range_update(&mut rm, 0, 2, 5, 300000);
    range_invert(&mut rm, 0);
    let grid = range_get_weights(&rm, 0);
    assert_eq!(grid[2 * 13 + 5], 700000);
    assert_eq!(grid[0], WEIGHT_SCALE);
}

#[test]
fn clear_zeroes_the_grid_and_the_combo_count() {
    let mut rm = RangeManager::new();
    range_update(&mut rm, 2, 0, 0, WEIGHT_SCALE);
    range_update(&mut rm, 2, 5, 9, 400000);
    range_clear(&mut rm, 2);
    assert_eq!(range_num_combos(&rm, 2), 0);
    for w in range_get_weights(&rm, 2) {
        assert_eq!(w, 0);
    }
}

#[test]
fn full_pocket_pair_cell_counts_six_combos() {
    let mut rm = RangeManager::new();
    range_update(&mut rm, 0, 0, 0, WEIGHT_SCALE);
    // six combos at weight 1.0, in micro-combos
    assert_eq!(range_num_combos(&rm, 0), 6 * WEIGHT_SCALE as u64);
}

#[test]
fn suited_and_offsuit_multiplicities() {
    let mut rm = RangeManager::new();
    range_update(&mut rm, 3, 0, 1, WEIGHT_SCALE); // suited: 4 combos
    assert_eq!(range_num_combos(&rm, 3), 4 * WEIGHT_SCALE as u64);
    range_update(&mut rm, 3, 0, 1, 0);
    range_update(&mut rm, 3, 1, 0, WEIGHT_SCALE); // offsuit: 12 combos
    assert_eq!(range_num_combos(&rm, 3), 12 * WEIGHT_SCALE as u64);
}

#[test]
fn raw_data_lists_every_combo() {
    let mut rm = RangeManager::new();
    range_update(&mut rm, 0, 0, 0, WEIGHT_SCALE);
    let raw = range_raw_data(&rm, 0);
    assert_eq!(raw.len(), 1326);
    // cards 48..52 are the aces; the combo (48, 49) sits at tri(49) + 48
    let idx = 49 * 48 / 2 + 48;
    assert_eq!(raw[idx], WEIGHT_SCALE);
    // an unrelated combo is empty
    assert_eq!(raw[0], 0);
    // total mass over the six ace pairs
    let total: u64 = raw.iter().map(|&w| w as u64).sum();
    assert_eq!(total, 6 * WEIGHT_SCALE as u64);
}
