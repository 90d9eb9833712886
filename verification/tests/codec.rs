use postflop_core::action::{decode_token, display_action, Action};
use postflop_core::line::{decode_line, decode_lines, encode_line, encode_lines};

fn enc(line: &[Action]) -> String {
    String::from_utf8(encode_line(&line.to_vec())).unwrap()
}

fn dec(s: &str) -> Option<Vec<Action>> {
    decode_line(&s.as_bytes().to_vec())
}

#[test]
fn empty_line_encodes_as_root_literal() {
    assert_eq!(enc(&[]), "(Root)");
}

#[test]
fn root_literal_decodes_to_empty_line() {
    assert_eq!(dec("(Root)"), Some(vec![]));
}

#[test]
fn two_checks_join_with_dash() {
    assert_eq!(enc(&[Action::Check, Action::Check]), "X-X");
}

#[test]
fn street_boundary_joins_with_pipe() {
    assert_eq!(
        enc(&[Action::Check, Action::Check, Action::Bet(100)]),
        "X-X|B100"
    );
    assert_eq!(
        enc(&[
            Action::Check,
            Action::Bet(100),
            Action::Call,
            Action::Check,
            Action::Check
        ]),
        "X-B100-C|X-X"
    );
}

#[test]
fn call_closes_the_street() {
    assert_eq!(
        enc(&[Action::Bet(25), Action::Call, Action::Bet(75)]),
        "B25-C|B75"
    );
}

#[test]
fn fold_and_allin_tokens() {
    assert_eq!(
        enc(&[Action::Bet(30), Action::Raise(90), Action::AllIn(990), Action::Fold]),
        "B30-R90-A990-F"
    );
}

#[test]
fn decode_splits_on_both_delimiters() {
    assert_eq!(
        dec("X-X|C"),
        Some(vec![Action::Check, Action::Check, Action::Call])
    );
    assert_eq!(
        dec("X-X-C"),
        Some(vec![Action::Check, Action::Check, Action::Call])
    );
}

#[test]
fn decode_then_encode_reproduces_canonical_strings() {
    for s in ["X-X|B100", "B25-C|X-B30-R90-A990-F", "F", "X-B1-C|X-X|A1000"] {
        let line = dec(s).unwrap();
        assert_eq!(enc(&line), s);
    }
}

#[test]
fn encode_then_decode_reproduces_lines() {
    let lines: Vec<Vec<Action>> = vec![
        vec![],
        vec![Action::Fold],
        vec![Action::Check, Action::Check, Action::Check, Action::Check],
        vec![Action::Bet(1), Action::Raise(3), Action::Call],
        vec![Action::Check, Action::Call],
    ];
    for line in lines {
        assert_eq!(decode_line(&encode_line(&line)), Some(line));
    }
}

#[test]
fn malformed_tokens_are_refused() {
    assert_eq!(dec(""), None);
    assert_eq!(dec("Z"), None);
    assert_eq!(dec("B"), None);
    assert_eq!(dec("Bx7"), None);
    assert_eq!(dec("X--X"), None);
    assert_eq!(dec("B99999999999"), None);
}

#[test]
fn line_lists_join_with_commas() {
    let ls = vec![
        vec![Action::Check, Action::Bet(50)],
        vec![Action::Bet(25), Action::Call, Action::Check],
    ];
    let encoded = encode_lines(&ls);
    assert_eq!(String::from_utf8(encoded.clone()).unwrap(), "X-B50,B25-C|X");
    assert_eq!(decode_lines(&encoded), Some(ls));
}

#[test]
fn empty_list_is_the_empty_string() {
    let ls: Vec<Vec<Action>> = vec![];
    assert_eq!(encode_lines(&ls), Vec::<u8>::new());
    assert_eq!(decode_lines(&Vec::new()), Some(vec![]));
}

#[test]
fn token_decoding_matches_variants() {
    let buf = b"F".to_vec();
    assert_eq!(decode_token(&buf, 0, 1), Some(Action::Fold));
    let buf = b"A1000".to_vec();
    assert_eq!(decode_token(&buf, 0, 5), Some(Action::AllIn(1000)));
}

#[test]
fn display_forms_carry_amounts() {
    assert_eq!(display_action(Action::Fold), b"Fold:0".to_vec());
    assert_eq!(display_action(Action::Check), b"Check:0".to_vec());
    assert_eq!(display_action(Action::Call), b"Call:0".to_vec());
    assert_eq!(display_action(Action::Bet(125)), b"Bet:125".to_vec());
    assert_eq!(display_action(Action::Raise(30)), b"Raise:30".to_vec());
    assert_eq!(display_action(Action::AllIn(990)), b"Allin:990".to_vec());
}
