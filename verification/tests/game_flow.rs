use postflop_core::game::{
    chance_report_row, strategy_summary, GameError, GameSession, PLAYER_CHANCE, PLAYER_OOP,
    PLAYER_TERMINAL,
};
use postflop_core::session::Session;
use postflop_core::tree::{TreeConfig, STREET_FLOP};

fn base_config(pot: u32, stack: u32) -> TreeConfig {
    TreeConfig {
        initial_street: STREET_FLOP,
        starting_pot: pot,
        effective_stack: stack,
        oop_flop_bet: vec![],
        oop_flop_raise: vec![],
        oop_turn_bet: vec![],
        oop_turn_raise: vec![],
        oop_river_bet: vec![],
        oop_river_raise: vec![],
        ip_flop_bet: vec![],
        ip_flop_raise: vec![],
        ip_turn_bet: vec![],
        ip_turn_raise: vec![],
        ip_river_bet: vec![],
        ip_river_raise: vec![],
        oop_turn_donk: None,
        oop_river_donk: None,
        add_allin_threshold: 0,
        force_allin_threshold: 0,
        merging_threshold: 0,
    }
}

fn built_game() -> GameSession {
    let mut g = GameSession::new();
    g.init(base_config(100, 1000), &vec![0, 1, 2], 0, 0, &Vec::new(), &Vec::new())
        .unwrap();
    g
}

#[test]
fn lifecycle_gates_each_stage() {
    let mut g = GameSession::new();
    assert_eq!(g.allocate_memory(false), Err(GameError::NotBuilt));
    assert_eq!(g.solve_step(0), Err(GameError::NotAllocated));
    assert_eq!(g.finalize(), Err(GameError::NotAllocated));
    g.init(base_config(100, 1000), &vec![0, 1, 2], 0, 0, &Vec::new(), &Vec::new())
        .unwrap();
    assert_eq!(g.solve_step(0), Err(GameError::NotAllocated));
    assert_eq!(g.allocate_memory(true), Ok(()));
    assert_eq!(g.solve_step(0), Ok(()));
    assert_eq!(g.finalize(), Ok(()));
}

#[test]
fn boards_must_hold_three_to_five_distinct_cards() {
    let mut g = GameSession::new();
    for bad in [vec![0, 1], vec![0, 1, 2, 3, 4, 5], vec![0, 0, 1], vec![0, 1, 99]] {
        assert_eq!(
            g.init(base_config(100, 1000), &bad, 0, 0, &Vec::new(), &Vec::new()),
            Err(GameError::InvalidBoard)
        );
    }
}

#[test]
fn history_walks_decisions_and_chance_cards() {
    let mut g = built_game();
    assert_eq!(g.current_player(), PLAYER_OOP);
    assert_eq!(g.play(0), Ok(())); // check
    assert_eq!(g.play(0), Ok(())); // check: street closes
    assert_eq!(g.current_player(), PLAYER_CHANCE);
    // board cards are dead
    assert_eq!(g.play(0), Err(GameError::CardUnavailable));
    assert_eq!(g.play(60), Err(GameError::CardUnavailable));
    assert_eq!(g.play(3), Ok(())); // deal the turn card 3
    assert_eq!(g.history(), vec![0, 0, 3]);
    assert_eq!(g.play(0), Ok(()));
    assert_eq!(g.play(0), Ok(()));
    assert_eq!(g.play(3), Err(GameError::CardUnavailable)); // already dealt
    assert_eq!(g.play(7), Ok(()));
    assert_eq!(g.play(0), Ok(()));
    assert_eq!(g.play(0), Ok(()));
    assert_eq!(g.current_player(), PLAYER_TERMINAL);
}

#[test]
fn possible_cards_excludes_board_and_dealt() {
    let mut g = built_game();
    let mask = g.possible_cards();
    assert_eq!(mask & 0b111, 0);
    for c in 3..52u8 {
        assert_eq!((mask >> c) & 1, 1);
    }
    g.play(0).unwrap();
    g.play(0).unwrap();
    g.play(17).unwrap();
    let mask = g.possible_cards();
    assert_eq!((mask >> 17) & 1, 0);
    assert_eq!((mask >> 16) & 1, 1);
}

#[test]
fn speculative_queries_restore_the_history_exactly() {
    let mut g = built_game();
    g.play(0).unwrap();
    let before = g.history();
    let totals = g.total_bet_amount(&vec![0, 5]).unwrap();
    assert_eq!(totals, (0, 0));
    assert_eq!(g.history(), before);
    let acts = g.actions_after(&vec![0, 5]).unwrap();
    assert_eq!(g.history(), before);
    assert_eq!(acts.len(), 1);
    assert_eq!(String::from_utf8(acts[0].clone()).unwrap(), "Check:0");
    // a failing continuation also restores
    assert!(g.total_bet_amount(&vec![9, 9, 9]).is_err());
    assert_eq!(g.history(), before);
}

#[test]
fn actions_after_names_terminal_and_chance_nodes() {
    let mut g = built_game();
    let acts = g.actions_after(&vec![0, 0]).unwrap();
    assert_eq!(String::from_utf8(acts[0].clone()).unwrap(), "chance");
}

#[test]
fn results_require_allocated_memory() {
    let g = built_game();
    let r = g.results_report(
        &vec![], &vec![], &vec![], &vec![], &vec![], &vec![], &vec![], &vec![], &vec![], &vec![],
    );
    assert!(matches!(r, Err(GameError::NotAllocated)));
}

#[test]
fn results_skip_normalization_when_a_range_is_empty() {
    let mut g = built_game();
    g.allocate_memory(false).unwrap();
    let g = g;
    let rep = g
        .results_report(
            &vec![400, 600_000],
            &vec![0, 0],
            &vec![500_000, 500_000],
            &vec![0, 0],
            &vec![300_000, 700_000],
            &vec![0, 0],
            &vec![100_000, 200_000],
            &vec![0, 0],
            &vec![],
            &vec![],
        )
        .unwrap();
    // the in-position side is empty: bit 1
    assert_eq!(rep.is_empty, 2);
    // dust below 0.0005 truncates to zero
    assert_eq!(rep.weights0, vec![0, 600_000]);
    // normalization is skipped, not computed
    assert_eq!(rep.normalizer0, rep.weights0);
    assert!(rep.equity0.is_empty());
    assert!(rep.eqr0.is_empty());
}

#[test]
fn results_report_rounds_and_signals_undefined_eqr() {
    let mut g = built_game();
    g.allocate_memory(false).unwrap();
    let g = g;
    let rep = g
        .results_report(
            &vec![1_000_000, 1_000_000],
            &vec![1_000_000],
            &vec![500_000, 500_000],
            &vec![1_000_000],
            &vec![0, 500_000],
            &vec![500_000],
            &vec![100_000, 50_000_000],
            &vec![200_000],
            &vec![],
            &vec![],
        )
        .unwrap();
    assert_eq!(rep.is_empty, 0);
    assert_eq!(rep.eqr_base, (100, 100));
    // a hand whose equity is zero reports the undefined signal
    assert_eq!(rep.eqr0[0], None);
    // ev 50 chips over half of a 100-chip pot realizes exactly 1.0
    assert_eq!(rep.eqr0[1], Some(1_000_000));
}

#[test]
fn chance_rows_tag_impossible_empty_and_populated_cards() {
    let none = chance_report_row(
        false,
        &vec![],
        &vec![],
        &vec![],
        &vec![],
        &vec![],
        &vec![],
        &vec![],
        &vec![],
        100,
        100,
    );
    assert_eq!(none.status, 0);

    let empty = chance_report_row(
        true,
        &vec![0, 400],
        &vec![1_000_000, 0],
        &vec![0, 0],
        &vec![500_000, 500_000],
        &vec![0, 0],
        &vec![500_000, 500_000],
        &vec![0, 0],
        &vec![0, 0],
        100,
        100,
    );
    assert_eq!(empty.status, 1);
    assert_eq!(empty.combos, (0, 1_000_000));

    let full = chance_report_row(
        true,
        &vec![1_000_000],
        &vec![500_000],
        &vec![1_000_000],
        &vec![1_000_000],
        &vec![500_000],
        &vec![500_000],
        &vec![50_000_000],
        &vec![25_000_000],
        100,
        100,
    );
    assert_eq!(full.status, 2);
    assert_eq!(full.combos, (1_000_000, 500_000));
    assert_eq!(full.equity, (500_000, 500_000));
    assert_eq!(full.ev, (50_000_000, 25_000_000));
    // eqr of player 0: 50 / (100 * 0.5) = 1.0
    assert_eq!(full.eqr.0, Some(1_000_000));
    assert_eq!(full.eqr.1, Some(500_000));
}

#[test]
fn session_reset_replaces_every_resource() {
    let mut s = Session::new();
    postflop_core::range::range_update(&mut s.ranges, 0, 0, 0, 1_000_000);
    s.bunching.init(&s.ranges, &vec![1, 2, 3]).unwrap();
    s.game
        .init(base_config(100, 1000), &vec![0, 1, 2], 0, 0, &Vec::new(), &Vec::new())
        .unwrap();
    s.reset();
    assert_eq!(postflop_core::range::range_num_combos(&s.ranges, 0), 0);
    assert!(!s.bunching.has_model());
    assert!(s.game.history().is_empty());
}

#[test]
fn private_cards_list_live_combos_off_the_board() {
    let mut g = built_game();
    let mut rm = postflop_core::range::RangeManager::new();
    // aces only: cards 48..52; the board holds cards 0, 1, 2
    postflop_core::range::range_update(&mut rm, 0, 0, 0, 1_000_000);
    let cards = g.private_cards(&rm, 0);
    assert_eq!(cards.len(), 6);
    assert_eq!(cards[0], 48 + 256 * 49);
    assert_eq!(cards[5], 50 + 256 * 51);
    // the deuces are cards 0 to 3 and the board holds 0, 1 and 2: no pair
    // of live deuce cards remains
    postflop_core::range::range_clear(&mut rm, 0);
    postflop_core::range::range_update(&mut rm, 0, 12, 12, 1_000_000);
    let cards = g.private_cards(&rm, 0);
    assert!(cards.is_empty());
}

#[test]
fn strategy_summaries_pick_the_normalizing_weights() {
    let strategy = vec![250_000, 750_000, 750_000, 250_000];
    let own = vec![1_000_000, 0];
    let normalized = vec![1_000_000, 1_000_000];
    // with both ranges populated, the normalized weights average the slices
    assert_eq!(
        strategy_summary(&strategy, 2, &own, &normalized, false),
        vec![500_000, 500_000]
    );
    // with the opponent empty, normalization is skipped: own weights decide
    assert_eq!(
        strategy_summary(&strategy, 2, &own, &normalized, true),
        vec![250_000, 750_000]
    );
}
