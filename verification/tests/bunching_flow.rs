use postflop_core::bunching::{BunchingController, BunchingError, BunchingStep};
use postflop_core::range::RangeManager;

#[test]
fn init_requires_three_board_cards() {
    let rm = RangeManager::new();
    let mut bc = BunchingController::new();
    assert_eq!(
        bc.init(&rm, &vec![10, 20]),
        Err(BunchingError::BoardTooShort)
    );
    assert!(!bc.has_model());
    assert_eq!(bc.init(&rm, &vec![10, 20, 30]), Ok(()));
    assert!(bc.has_model());
    assert_eq!(bc.state(), (0, 0));
}

#[test]
fn a_failed_init_discards_a_held_model() {
    let rm = RangeManager::new();
    let mut bc = BunchingController::new();
    bc.init(&rm, &vec![1, 2, 3]).unwrap();
    assert!(bc.has_model());
    // the failure leaves the controller with no model at all
    assert_eq!(bc.init(&rm, &vec![9]), Err(BunchingError::BoardTooShort));
    assert!(!bc.has_model());
}

#[test]
fn progress_without_a_model_is_a_checked_failure() {
    let mut bc = BunchingController::new();
    assert_eq!(bc.progress(), Err(BunchingError::NoModel));
}

#[test]
fn clear_discards_the_model_idempotently() {
    let rm = RangeManager::new();
    let mut bc = BunchingController::new();
    bc.init(&rm, &vec![1, 2, 3]).unwrap();
    bc.clear();
    assert!(!bc.has_model());
    bc.clear();
    assert!(!bc.has_model());
}

#[test]
fn phases_run_strictly_in_order_with_monotonic_percent() {
    let rm = RangeManager::new();
    let mut bc = BunchingController::new();
    bc.init(&rm, &vec![1, 2, 3]).unwrap();

    let (step, ph, pc) = bc.progress().unwrap();
    assert_eq!((step, ph, pc), (BunchingStep::Phase1Prepare, 1, 0));

    let mut last = (1u8, 0u8);
    loop {
        let (step, ph, pc) = bc.progress().unwrap();
        // phases never go backward, never skip
        assert!(ph == last.0 || ph == last.0 + 1);
        if ph == last.0 {
            assert_eq!(pc, last.1 + 1);
        } else {
            assert_eq!(pc, 0);
            match (last.0, ph) {
                (1, 2) => assert_eq!(step, BunchingStep::Phase2Prepare),
                (2, 3) => assert_eq!(step, BunchingStep::Phase3Prepare),
                _ => panic!("unexpected phase change"),
            }
        }
        match step {
            BunchingStep::Phase1Unit => assert_eq!(ph, 1),
            BunchingStep::Phase2Unit => assert_eq!(ph, 2),
            BunchingStep::Phase3Unit => assert_eq!(ph, 3),
            _ => {}
        }
        last = (ph, pc);
        if ph == 3 && pc == 100 {
            break;
        }
    }
    // 1 prepare + 100 units per phase were needed
    // the final state is a fixed point
    for _ in 0..3 {
        let (step, ph, pc) = bc.progress().unwrap();
        assert_eq!((step, ph, pc), (BunchingStep::Done, 3, 100));
        assert_eq!(bc.state(), (3, 100));
    }
}
