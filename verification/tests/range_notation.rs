use postflop_core::range::{range_num_combos, range_update, RangeManager, WEIGHT_SCALE};
use postflop_core::range_text::{range_from_string, range_to_string, RangeTextError};

fn to_s(rm: &RangeManager, player: usize) -> String {
    String::from_utf8(range_to_string(rm, player)).unwrap()
}

fn from_s(rm: &mut RangeManager, player: usize, text: &str) -> Result<(), RangeTextError> {
    range_from_string(rm, player, &text.as_bytes().to_vec())
}

#[test]
fn a_full_pocket_pair_cell_renders_as_its_hand_alone() {
    let mut rm = RangeManager::new();
    range_update(&mut rm, 0, 0, 0, WEIGHT_SCALE);
    assert_eq!(to_s(&rm, 0), "AA");
}

#[test]
fn entries_render_in_grid_order_with_weights() {
    let mut rm = RangeManager::new();
    range_update(&mut rm, 0, 0, 0, WEIGHT_SCALE);
    range_update(&mut rm, 0, 0, 1, WEIGHT_SCALE);
    range_update(&mut rm, 0, 1, 0, WEIGHT_SCALE);
    range_update(&mut rm, 0, 1, 1, 500_000);
    assert_eq!(to_s(&rm, 0), "AA,AKs,AKo,KK:0.500000");
}

#[test]
fn parsing_replaces_the_whole_range() {
    let mut rm = RangeManager::new();
    range_update(&mut rm, 1, 5, 5, WEIGHT_SCALE);
    assert_eq!(from_s(&mut rm, 1, "AA,AKs:0.25,QQ:0.500000"), Ok(()));
    assert_eq!(to_s(&rm, 1), "AA,AKs:0.250000,QQ:0.500000");
    // 6 * 1.0 + 4 * 0.25 + 6 * 0.5 combos
    assert_eq!(range_num_combos(&rm, 1), 10 * WEIGHT_SCALE as u64);
}

#[test]
fn the_empty_string_is_the_empty_range() {
    let mut rm = RangeManager::new();
    range_update(&mut rm, 2, 3, 3, WEIGHT_SCALE);
    assert_eq!(from_s(&mut rm, 2, ""), Ok(()));
    assert_eq!(range_num_combos(&rm, 2), 0);
    assert_eq!(to_s(&rm, 2), "");
}

#[test]
fn bare_weights_zero_and_one_are_accepted() {
    let mut rm = RangeManager::new();
    assert_eq!(from_s(&mut rm, 0, "TT:1,99:0,72o:0.5"), Ok(()));
    assert_eq!(to_s(&rm, 0), "TT,72o:0.500000");
}

#[test]
fn a_malformed_entry_keeps_the_previous_range() {
    let mut rm = RangeManager::new();
    range_update(&mut rm, 3, 0, 0, WEIGHT_SCALE);
    for bad in ["ZZ", "AK", "AAs", "AKx", "AA:", "AA:2", "AA:0.9999999", "AA:.5", ","] {
        assert_eq!(from_s(&mut rm, 3, bad), Err(RangeTextError::Malformed));
        assert_eq!(to_s(&rm, 3), "AA");
    }
}
