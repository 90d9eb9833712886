//! Betting actions and their single-token byte encoding.
//!
//! Every edge of the betting tree is one [`Action`].  An action serializes to
//! a single token: `F`, `X`, `C` for fold / check / call, and `B<amount>`,
//! `R<amount>`, `A<amount>` for bet / raise / all-in, where `<amount>` is the
//! decimal rendering of a chip count.

use vstd::prelude::*;

verus! {

/// One concrete betting action: an edge label in the action tree.
#[derive(Clone, Copy, PartialEq, Eq, Structural, Debug)]
pub enum Action {
    /// Give up the hand.
    Fold,
    /// Pass without betting.
    Check,
    /// Match the outstanding bet.
    Call,
    /// Open for the given total amount of chips.
    Bet(u32),
    /// Raise to the given total amount of chips.
    Raise(u32),
    /// Commit the whole stack, to the given total amount of chips.
    AllIn(u32),
}

/// Token letter for a fold.
pub const TOK_FOLD: u8 = 70u8;

/// Token letter for a check.
pub const TOK_CHECK: u8 = 88u8;

/// Token letter for a call.
pub const TOK_CALL: u8 = 67u8;

/// Token letter opening a bet amount.
pub const TOK_BET: u8 = 66u8;

/// Token letter opening a raise amount.
pub const TOK_RAISE: u8 = 82u8;

/// Token letter opening an all-in amount.
pub const TOK_ALLIN: u8 = 65u8;

/// ASCII code of the digit zero.
pub const DIGIT_ZERO: u8 = 48u8;

/// Whether a byte is an ASCII decimal digit.
pub open spec fn is_digit(b: u8) -> bool {
    DIGIT_ZERO <= b <= DIGIT_ZERO + 9
}

/// The decimal rendering of a number, most significant digit first.
pub open spec fn dec_digits(n: nat) -> Seq<u8>
    decreases n,
{
    if n < 10 {
        seq![(DIGIT_ZERO + n) as u8]
    } else {
        dec_digits(n / 10).push((DIGIT_ZERO + n % 10) as u8)
    }
}

/// The numeric value of a sequence of decimal digit bytes.
pub open spec fn dec_val(s: Seq<u8>) -> nat
    decreases s.len(),
{
    if s.len() == 0 {
        0
    } else {
        dec_val(s.drop_last()) * 10 + ((s.last() - DIGIT_ZERO) as nat)
    }
}

/// Whether every byte of a sequence is a decimal digit.
pub open spec fn all_digits(s: Seq<u8>) -> bool {
    forall|i: int| 0 <= i < s.len() ==> is_digit(#[trigger] s[i])
}

/// The decimal rendering consists of digits only.
pub proof fn lemma_dec_digits_are_digits(n: nat)
    ensures
        all_digits(dec_digits(n)),
        dec_digits(n).len() >= 1,
    decreases n,
{
    if n >= 10 {
        lemma_dec_digits_are_digits(n / 10);
        let s = dec_digits(n);
        let p = dec_digits(n / 10);
        assert forall|i: int| 0 <= i < s.len() implies is_digit(#[trigger] s[i]) by {
            if i < p.len() {
                assert(s[i] == p[i]);
            }
        }
    }
}

/// Reading back the decimal rendering gives the number itself.
pub proof fn lemma_dec_val_of_digits(n: nat)
    ensures
        dec_val(dec_digits(n)) == n,
    decreases n,
{
    if n < 10 {
        let s = dec_digits(n);
        assert(s.drop_last() =~= Seq::<u8>::empty());
        assert(s.last() == (DIGIT_ZERO + n) as u8);
        assert((DIGIT_ZERO + n) as u8 == DIGIT_ZERO + n);
        assert(dec_val(s) == dec_val(Seq::<u8>::empty()) * 10 + ((s.last() - DIGIT_ZERO) as nat));
    } else {
        lemma_dec_val_of_digits(n / 10);
        let s = dec_digits(n);
        assert(s.drop_last() =~= dec_digits(n / 10));
        assert(s.last() == (DIGIT_ZERO + n % 10) as u8);
        assert((DIGIT_ZERO + n % 10) as u8 == DIGIT_ZERO + n % 10);
        assert(dec_val(s) == (n / 10) * 10 + ((s.last() - DIGIT_ZERO) as nat));
        assert(n == (n / 10) * 10 + n % 10);
    }
}

/// Appends the decimal rendering of `n` to `out`.
pub fn push_dec(out: &mut Vec<u8>, n: u32)
    ensures
        final(out)@ == old(out)@ + dec_digits(n as nat),
    decreases n,
{
    if n < 10 {
        out.push(DIGIT_ZERO + (n as u8));
        assert(out@ =~= old(out)@ + dec_digits(n as nat));
    } else {
        push_dec(out, n / 10);
        out.push(DIGIT_ZERO + ((n % 10) as u8));
        assert(out@ =~= old(out)@ + dec_digits(n as nat));
    }
}

/// A longer digit string never has a smaller value.
proof fn lemma_dec_val_monotone(s: Seq<u8>, i: int)
    requires
        0 <= i <= s.len(),
        all_digits(s),
    ensures
        dec_val(s.take(i)) <= dec_val(s),
    decreases s.len() - i,
{
    if i < s.len() {
        lemma_dec_val_monotone(s, i + 1);
        assert(s.take(i + 1).drop_last() =~= s.take(i));
        assert(dec_val(s.take(i + 1)) == dec_val(s.take(i)) * 10 + (s.take(i + 1).last()
            - DIGIT_ZERO));
    } else {
        assert(s.take(i) =~= s);
    }
}

/// Reads a decimal amount from `s[lo..hi]`; `None` when the range is empty,
/// holds a non-digit, or the value does not fit in a `u32`.
pub fn parse_amount(s: &Vec<u8>, lo: usize, hi: usize) -> (r: Option<u32>)
    requires
        lo <= hi <= s@.len(),
    ensures
        match r {
            Some(v) => {
                &&& hi > lo
                &&& all_digits(s@.subrange(lo as int, hi as int))
                &&& v == dec_val(s@.subrange(lo as int, hi as int))
            },
            None => {
                hi == lo || !all_digits(s@.subrange(lo as int, hi as int)) || dec_val(
                    s@.subrange(lo as int, hi as int),
                ) > u32::MAX
            },
        },
{
    if lo == hi {
        return None;
    }
    let ghost whole = s@.subrange(lo as int, hi as int);
    let mut acc: u32 = 0;
    let mut i: usize = lo;
    while i < hi
        invariant
            lo <= i <= hi <= s@.len(),
            all_digits(whole.take(i - lo)),
            acc == dec_val(whole.take(i - lo)),
            whole == s@.subrange(lo as int, hi as int),
        decreases hi - i,
    {
        let b = s[i];
        if b < DIGIT_ZERO || b > DIGIT_ZERO + 9 {
            assert(whole[i - lo] == b);
            return None;
        }
        let d: u32 = (b - DIGIT_ZERO) as u32;
        let acc10 = match acc.checked_mul(10) {
            Some(x) => x,
            None => {
                proof {
                    assert(whole.take(i - lo + 1).drop_last() =~= whole.take(i - lo));
                    assert(dec_val(whole.take(i - lo + 1)) > u32::MAX);
                    if all_digits(whole) {
                        lemma_dec_val_monotone(whole, i - lo + 1);
                    }
                }
                return None;
            },
        };
        let acc2 = match acc10.checked_add(d) {
            Some(x) => x,
            None => {
                proof {
                    assert(whole.take(i - lo + 1).drop_last() =~= whole.take(i - lo));
                    assert(dec_val(whole.take(i - lo + 1)) > u32::MAX);
                    if all_digits(whole) {
                        lemma_dec_val_monotone(whole, i - lo + 1);
                    }
                }
                return None;
            },
        };
        proof {
            assert(whole.take(i - lo + 1).drop_last() =~= whole.take(i - lo));
            assert(whole.take(i - lo + 1).last() == whole[i - lo]);
        }
        acc = acc2;
        i = i + 1;
    }
    proof {
        assert(whole.take(hi - lo) =~= whole);
    }
    Some(acc)
}

/// The single-token byte encoding of an action.
pub open spec fn spec_token(a: Action) -> Seq<u8> {
    match a {
        Action::Fold => seq![TOK_FOLD],
        Action::Check => seq![TOK_CHECK],
        Action::Call => seq![TOK_CALL],
        Action::Bet(n) => seq![TOK_BET] + dec_digits(n as nat),
        Action::Raise(n) => seq![TOK_RAISE] + dec_digits(n as nat),
        Action::AllIn(n) => seq![TOK_ALLIN] + dec_digits(n as nat),
    }
}

/// Appends the token of `a` to `out`.
pub fn push_token(out: &mut Vec<u8>, a: Action)
    ensures
        final(out)@ == old(out)@ + spec_token(a),
{
    match a {
        Action::Fold => {
            out.push(TOK_FOLD);
            assert(out@ =~= old(out)@ + spec_token(a));
        },
        Action::Check => {
            out.push(TOK_CHECK);
            assert(out@ =~= old(out)@ + spec_token(a));
        },
        Action::Call => {
            out.push(TOK_CALL);
            assert(out@ =~= old(out)@ + spec_token(a));
        },
        Action::Bet(n) => {
            out.push(TOK_BET);
            push_dec(out, n);
            assert(out@ =~= old(out)@ + spec_token(a));
        },
        Action::Raise(n) => {
            out.push(TOK_RAISE);
            push_dec(out, n);
            assert(out@ =~= old(out)@ + spec_token(a));
        },
        Action::AllIn(n) => {
            out.push(TOK_ALLIN);
            push_dec(out, n);
            assert(out@ =~= old(out)@ + spec_token(a));
        },
    }
}

/// The action a token stands for; `None` for a malformed token.
pub open spec fn spec_decode_token(t: Seq<u8>) -> Option<Action> {
    if t.len() == 1 && t[0] == TOK_FOLD {
        Some(Action::Fold)
    } else if t.len() == 1 && t[0] == TOK_CHECK {
        Some(Action::Check)
    } else if t.len() == 1 && t[0] == TOK_CALL {
        Some(Action::Call)
    } else if t.len() >= 2 && (t[0] == TOK_BET || t[0] == TOK_RAISE || t[0] == TOK_ALLIN)
        && all_digits(t.skip(1)) && dec_val(t.skip(1)) <= u32::MAX {
        let n = dec_val(t.skip(1)) as u32;
        if t[0] == TOK_BET {
            Some(Action::Bet(n))
        } else if t[0] == TOK_RAISE {
            Some(Action::Raise(n))
        } else {
            Some(Action::AllIn(n))
        }
    } else {
        None
    }
}

/// Decodes the token held in `s[lo..hi]`.
pub fn decode_token(s: &Vec<u8>, lo: usize, hi: usize) -> (r: Option<Action>)
    requires
        lo <= hi <= s@.len(),
    ensures
        r == spec_decode_token(s@.subrange(lo as int, hi as int)),
{
    let ghost t = s@.subrange(lo as int, hi as int);
    if hi == lo {
        return None;
    }
    let b0 = s[lo];
    if hi - lo == 1 {
        if b0 == TOK_FOLD {
            Some(Action::Fold)
        } else if b0 == TOK_CHECK {
            Some(Action::Check)
        } else if b0 == TOK_CALL {
            Some(Action::Call)
        } else {
            None
        }
    } else {
        if b0 == TOK_BET || b0 == TOK_RAISE || b0 == TOK_ALLIN {
            proof {
                assert(t.skip(1) =~= s@.subrange(lo as int + 1, hi as int));
            }
            match parse_amount(s, lo + 1, hi) {
                Some(n) => {
                    if b0 == TOK_BET {
                        Some(Action::Bet(n))
                    } else if b0 == TOK_RAISE {
                        Some(Action::Raise(n))
                    } else {
                        Some(Action::AllIn(n))
                    }
                },
                None => None,
            }
        } else {
            None
        }
    }
}

/// ASCII code of the colon separating an action name from its amount.
pub const DISPLAY_COLON: u8 = 58u8;

/// The display form of an action: its name, a colon, and its amount (zero
/// for fold, check and call).
pub open spec fn spec_display(a: Action) -> Seq<u8> {
    match a {
        Action::Fold => seq![70u8, 111u8, 108u8, 100u8, DISPLAY_COLON, DIGIT_ZERO],
        Action::Check => seq![67u8, 104u8, 101u8, 99u8, 107u8, DISPLAY_COLON, DIGIT_ZERO],
        Action::Call => seq![67u8, 97u8, 108u8, 108u8, DISPLAY_COLON, DIGIT_ZERO],
        Action::Bet(n) => seq![66u8, 101u8, 116u8, DISPLAY_COLON] + dec_digits(n as nat),
        Action::Raise(n) => seq![82u8, 97u8, 105u8, 115u8, 101u8, DISPLAY_COLON] + dec_digits(
            n as nat,
        ),
        Action::AllIn(n) => seq![65u8, 108u8, 108u8, 105u8, 110u8, DISPLAY_COLON] + dec_digits(
            n as nat,
        ),
    }
}

/// Renders the display form of an action.
pub fn display_action(a: Action) -> (r: Vec<u8>)
    ensures
        r@ == spec_display(a),
{
    let mut out: Vec<u8> = Vec::new();
    match a {
        Action::Fold => {
            out.push(70u8);
            out.push(111u8);
            out.push(108u8);
            out.push(100u8);
            out.push(DISPLAY_COLON);
            out.push(DIGIT_ZERO);
        },
        Action::Check => {
            out.push(67u8);
            out.push(104u8);
            out.push(101u8);
            out.push(99u8);
            out.push(107u8);
            out.push(DISPLAY_COLON);
            out.push(DIGIT_ZERO);
        },
        Action::Call => {
            out.push(67u8);
            out.push(97u8);
            out.push(108u8);
            out.push(108u8);
            out.push(DISPLAY_COLON);
            out.push(DIGIT_ZERO);
        },
        Action::Bet(n) => {
            out.push(66u8);
            out.push(101u8);
            out.push(116u8);
            out.push(DISPLAY_COLON);
            push_dec(&mut out, n);
        },
        Action::Raise(n) => {
            out.push(82u8);
            out.push(97u8);
            out.push(105u8);
            out.push(115u8);
            out.push(101u8);
            out.push(DISPLAY_COLON);
            push_dec(&mut out, n);
        },
        Action::AllIn(n) => {
            out.push(65u8);
            out.push(108u8);
            out.push(108u8);
            out.push(105u8);
            out.push(110u8);
            out.push(DISPLAY_COLON);
            push_dec(&mut out, n);
        },
    }
    proof {
        assert(out@ =~= spec_display(a));
    }
    out
}

/// Decoding a rendered token gives back the action.
pub proof fn lemma_token_round_trip(a: Action)
    ensures
        spec_decode_token(spec_token(a)) == Some(a),
{
    match a {
        Action::Fold => {},
        Action::Check => {},
        Action::Call => {},
        Action::Bet(n) => {
            lemma_dec_digits_are_digits(n as nat);
            lemma_dec_val_of_digits(n as nat);
            assert(spec_token(a).skip(1) =~= dec_digits(n as nat));
        },
        Action::Raise(n) => {
            lemma_dec_digits_are_digits(n as nat);
            lemma_dec_val_of_digits(n as nat);
            assert(spec_token(a).skip(1) =~= dec_digits(n as nat));
        },
        Action::AllIn(n) => {
            lemma_dec_digits_are_digits(n as nat);
            lemma_dec_val_of_digits(n as nat);
            assert(spec_token(a).skip(1) =~= dec_digits(n as nat));
        },
    }
}

} // verus!
