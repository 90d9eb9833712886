use postflop_core::action::Action;
use postflop_core::navigator::{default_action_tree, ActionTree, TreeError};
use postflop_core::tree::{street_of_board_len, TreeConfig, STREET_FLOP, STREET_RIVER, STREET_TURN};

fn base_config(pot: u32, stack: u32) -> TreeConfig {
    TreeConfig {
        initial_street: STREET_FLOP,
        starting_pot: pot,
        effective_stack: stack,
        oop_flop_bet: vec![],
        oop_flop_raise: vec![],
        oop_turn_bet: vec![],
        oop_turn_raise: vec![],
        oop_river_bet: vec![],
        oop_river_raise: vec![],
        ip_flop_bet: vec![],
        ip_flop_raise: vec![],
        ip_turn_bet: vec![],
        ip_turn_raise: vec![],
        ip_river_bet: vec![],
        ip_river_raise: vec![],
        oop_turn_donk: None,
        oop_river_donk: None,
        add_allin_threshold: 0,
        force_allin_threshold: 0,
        merging_threshold: 0,
    }
}

fn labels(t: &ActionTree) -> Vec<String> {
    t.actions()
        .into_iter()
        .map(|b| String::from_utf8(b).unwrap())
        .collect()
}

#[test]
fn street_derives_from_board_length() {
    assert_eq!(street_of_board_len(0), Some(STREET_FLOP));
    assert_eq!(street_of_board_len(3), Some(STREET_FLOP));
    assert_eq!(street_of_board_len(4), Some(STREET_TURN));
    assert_eq!(street_of_board_len(5), Some(STREET_RIVER));
    assert_eq!(street_of_board_len(6), None);
}

#[test]
fn default_flop_tree_checks_through_to_a_chance_node() {
    // flop, pot 100, stack 1000, default sizing, no donk, no custom lines
    let mut t = ActionTree::new(base_config(100, 1000)).unwrap();
    assert!(!t.is_terminal_node());
    assert!(!t.is_chance_node());
    assert_eq!(labels(&t), vec!["Check:0"]);
    assert_eq!(t.play(Action::Check), 0);
    assert_eq!(labels(&t), vec!["Check:0"]);
    assert_eq!(t.play(Action::Check), 0);
    assert!(t.is_chance_node());
}

#[test]
fn bad_config_is_refused() {
    match ActionTree::new(base_config(0, 1000)) {
        Err(TreeError::BadConfig) => {}
        _ => panic!("a zero pot must be refused"),
    }
}

#[test]
fn building_twice_yields_identical_actions_everywhere_reached() {
    let mut cfg = base_config(100, 1000);
    cfg.oop_flop_bet = vec![50, 100];
    cfg.ip_flop_raise = vec![60];
    let mut a = ActionTree::new(cfg).unwrap();
    let mut cfg2 = base_config(100, 1000);
    cfg2.oop_flop_bet = vec![50, 100];
    cfg2.ip_flop_raise = vec![60];
    let mut b = ActionTree::new(cfg2).unwrap();
    assert_eq!(labels(&a), labels(&b));
    for line in [vec![Action::Check], vec![Action::Bet(50)], vec![Action::Bet(100)]] {
        a.back_to_root();
        b.back_to_root();
        assert_eq!(a.apply_history(&line), Ok(()));
        assert_eq!(b.apply_history(&line), Ok(()));
        assert_eq!(labels(&a), labels(&b));
    }
}

#[test]
fn sized_bets_follow_the_pot() {
    let mut cfg = base_config(100, 1000);
    cfg.oop_flop_bet = vec![50, 100];
    let t = ActionTree::new(cfg).unwrap();
    assert_eq!(labels(&t), vec!["Check:0", "Bet:50", "Bet:100"]);
}

#[test]
fn oversized_bets_become_all_in() {
    let mut cfg = base_config(100, 75);
    cfg.oop_flop_bet = vec![100];
    let t = ActionTree::new(cfg).unwrap();
    assert_eq!(labels(&t), vec!["Check:0", "Allin:75"]);
}

#[test]
fn facing_a_bet_offers_fold_and_call() {
    let mut cfg = base_config(100, 1000);
    cfg.oop_flop_bet = vec![50];
    let mut t = ActionTree::new(cfg).unwrap();
    assert_eq!(t.play(Action::Bet(50)), 1);
    assert_eq!(labels(&t), vec!["Fold:0", "Call:0"]);
}

#[test]
fn play_answers_the_sentinel_for_unavailable_actions() {
    let mut t = ActionTree::new(base_config(100, 1000)).unwrap();
    assert_eq!(t.play(Action::Fold), -1);
    assert_eq!(t.play(Action::Bet(33)), -1);
    assert_eq!(labels(&t), vec!["Check:0"]);
    assert_eq!(t.play_encoded(&b"Z9".to_vec()), -1);
    assert_eq!(t.play_encoded(&b"X".to_vec()), 0);
}

#[test]
fn apply_history_is_all_or_nothing() {
    let mut t = ActionTree::new(base_config(100, 1000)).unwrap();
    assert_eq!(t.play(Action::Check), 0);
    // an impossible history: a call with no outstanding bet
    assert_eq!(
        t.apply_history(&vec![Action::Check, Action::Call]),
        Err(TreeError::BadHistory)
    );
    // the cursor kept its old position
    assert_eq!(labels(&t), vec!["Check:0"]);
    assert_eq!(
        t.apply_history(&vec![Action::Check, Action::Check]),
        Ok(())
    );
    assert!(t.is_chance_node());
}

#[test]
fn total_bet_amount_tracks_street_commitments() {
    let mut cfg = base_config(100, 1000);
    cfg.oop_flop_bet = vec![50];
    cfg.ip_flop_raise = vec![100];
    let mut t = ActionTree::new(cfg).unwrap();
    assert_eq!(t.total_bet_amount(), (0, 0));
    assert_eq!(t.play(Action::Bet(50)), 1);
    assert_eq!(t.total_bet_amount(), (50, 0));
    // raise to 50 + pot-after-call (200) => 250
    assert_eq!(t.play(Action::Raise(250)), 2);
    assert_eq!(t.total_bet_amount(), (50, 250));
    assert_eq!(t.play(Action::Call), 1);
    assert_eq!(t.total_bet_amount(), (250, 250));
    assert!(t.is_chance_node());
}

#[test]
fn add_bet_action_records_an_added_line() {
    let mut t = ActionTree::new(base_config(100, 1000)).unwrap();
    assert_eq!(t.add_bet_action(70, false), Ok(()));
    assert_eq!(labels(&t), vec!["Check:0", "Bet:70"]);
    assert_eq!(String::from_utf8(t.added_lines()).unwrap(), "B70");
    assert_eq!(t.add_bet_action(70, false), Err(TreeError::DuplicateAction));
}

#[test]
fn remove_current_node_returns_to_the_parent() {
    let mut t = ActionTree::new(base_config(100, 1000)).unwrap();
    assert_eq!(t.remove_current_node(), Err(TreeError::AtRoot));
    assert_eq!(t.play(Action::Check), 0);
    assert_eq!(t.remove_current_node(), Ok(()));
    // the check edge is gone from the root
    assert_eq!(labels(&t), Vec::<String>::new());
    assert_eq!(String::from_utf8(t.removed_lines()).unwrap(), "X");
}

#[test]
fn rebuild_applies_added_then_removed_lines() {
    let mut t = default_action_tree();
    let mut cfg = base_config(100, 1000);
    cfg.oop_flop_bet = vec![50];
    assert_eq!(t.rebuild(cfg, &b"B70".to_vec(), &b"B50".to_vec()), Ok(()));
    assert_eq!(labels(&t), vec!["Check:0", "Bet:70"]);
    assert_eq!(String::from_utf8(t.added_lines()).unwrap(), "B70");
    assert_eq!(String::from_utf8(t.removed_lines()).unwrap(), "B50");
}

#[test]
fn rebuild_refuses_undecodable_lines() {
    let mut t = default_action_tree();
    let cfg = base_config(100, 1000);
    assert_eq!(
        t.rebuild(cfg, &b"Zzz".to_vec(), &Vec::new()),
        Err(TreeError::BadLine)
    );
}

#[test]
fn deleting_a_removed_line_restores_a_stub() {
    let mut cfg = base_config(100, 1000);
    cfg.oop_flop_bet = vec![50];
    let mut t = ActionTree::new(cfg).unwrap();
    let line = vec![Action::Bet(50)];
    assert_eq!(t.remove_line(&line), Ok(()));
    assert_eq!(String::from_utf8(t.removed_lines()).unwrap(), "B50");
    assert_eq!(labels(&t), vec!["Check:0"]);
    assert_eq!(t.delete_removed_line(&line), Ok(()));
    assert_eq!(String::from_utf8(t.removed_lines()).unwrap(), "");
    assert_eq!(labels(&t), vec!["Check:0", "Bet:50"]);
}

#[test]
fn invalid_terminals_list_bet_stubs_owing_a_subtree() {
    let mut t = ActionTree::new(base_config(100, 1000)).unwrap();
    // a grammar-generated tree owes nothing
    assert_eq!(String::from_utf8(t.invalid_terminals()).unwrap(), "");
    t.add_bet_action(70, false).unwrap();
    assert_eq!(String::from_utf8(t.invalid_terminals()).unwrap(), "B70");
    t.play(Action::Check);
    t.add_bet_action(30, false).unwrap();
    assert_eq!(
        String::from_utf8(t.invalid_terminals()).unwrap(),
        "X-B30,B70"
    );
}
