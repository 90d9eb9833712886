//! The line-encoding protocol of the action tree.
//!
//! A *line* is an ordered sequence of actions describing one path through the
//! betting tree.  Each action serializes to its single token; adjacent tokens
//! are joined by `-`, except that the token after a street-closing action (a
//! call, or the second of two consecutive checks) is joined by `|`.  The
//! joining rule is driven by a running flag: a check increments it, a call
//! sets it to 2, anything else clears it; when a delimiter is emitted while
//! the flag is 2, the delimiter is `|` and the flag resets.  The empty line
//! encodes as the literal `(Root)`.  Several lines are joined by `,`.
//!
//! Decoding splits on both delimiters indiscriminately, so decoding is total
//! on well-formed token lists however they were delimited; encoding is the
//! canonical form.

use vstd::prelude::*;

use crate::action::{
    Action, spec_token, push_token, spec_decode_token, decode_token, is_digit, dec_digits,
    lemma_dec_digits_are_digits, lemma_token_round_trip, DIGIT_ZERO, TOK_FOLD, TOK_CHECK,
    TOK_CALL, TOK_BET, TOK_RAISE, TOK_ALLIN,
};

verus! {

/// Delimiter joining tokens within one street.
pub const DELIM_DASH: u8 = 45u8;

/// Delimiter marking a street boundary.
pub const DELIM_PIPE: u8 = 124u8;

/// Separator between whole lines.
pub const LINE_COMMA: u8 = 44u8;

/// Whether a byte separates two tokens of a line.
pub open spec fn is_delim(b: u8) -> bool {
    b == DELIM_DASH || b == DELIM_PIPE
}

/// The literal that stands for the empty line.
pub open spec fn root_line() -> Seq<u8> {
    seq![40u8, 82u8, 111u8, 111u8, 116u8, 41u8]
}

/// How an action changes the running delimiter flag.
pub open spec fn spec_upd_flag(flag: int, a: Action) -> int {
    match a {
        Action::Check => flag + 1,
        Action::Call => 2,
        _ => 0,
    }
}

/// Flag transition for a non-leading token: emitting the delimiter resets a
/// flag of 2, then the action is applied.
pub open spec fn spec_step_flag(flag: int, a: Action) -> int {
    spec_upd_flag(if flag == 2 { 0int } else { flag }, a)
}

/// The delimiter emitted for a given flag value.
pub open spec fn spec_delim(flag: int) -> u8 {
    if flag == 2 {
        DELIM_PIPE
    } else {
        DELIM_DASH
    }
}

/// Encoding of the tokens of `line` from position `i` on, each preceded by
/// its delimiter, starting from the given flag value.
pub open spec fn spec_encode_from(line: Seq<Action>, i: int, flag: int) -> Seq<u8>
    decreases line.len() - i,
{
    if i < 0 || i >= line.len() {
        Seq::empty()
    } else {
        seq![spec_delim(flag)] + spec_token(line[i]) + spec_encode_from(
            line,
            i + 1,
            spec_step_flag(flag, line[i]),
        )
    }
}

/// The canonical byte encoding of a line.
pub open spec fn spec_encode_line(line: Seq<Action>) -> Seq<u8> {
    if line.len() == 0 {
        root_line()
    } else {
        spec_token(line[0]) + spec_encode_from(line, 1, spec_upd_flag(0, line[0]))
    }
}

/// Length of the delimiter-free run starting at `i`.
pub open spec fn token_len(s: Seq<u8>, i: int) -> nat
    decreases s.len() - i,
{
    if i < 0 || i >= s.len() || is_delim(s[i]) {
        0
    } else {
        1 + token_len(s, i + 1)
    }
}

/// The token list a delimiter-separated byte string stands for.
pub open spec fn spec_decode_tokens(s: Seq<u8>) -> Option<Seq<Action>>
    decreases s.len(),
{
    let tl = token_len(s, 0) as int;
    match spec_decode_token(s.take(tl)) {
        None => None,
        Some(a) => if tl >= s.len() {
            Some(seq![a])
        } else {
            match spec_decode_tokens(s.skip(tl + 1)) {
                None => None,
                Some(r) => Some(seq![a] + r),
            }
        },
    }
}

/// The line a byte string stands for: the root literal is the empty line.
pub open spec fn spec_decode_line(s: Seq<u8>) -> Option<Seq<Action>> {
    if s == root_line() {
        Some(Seq::empty())
    } else {
        spec_decode_tokens(s)
    }
}

/// A delimiter-free run is exactly as long as the scan that found it.
proof fn lemma_token_len_eq(s: Seq<u8>, lo: int, j: int)
    requires
        0 <= lo <= j <= s.len(),
        forall|k: int| lo <= k < j ==> !is_delim(#[trigger] s[k]),
        j == s.len() || is_delim(s[j]),
    ensures
        token_len(s, lo) == j - lo,
    decreases j - lo,
{
    if lo < j {
        lemma_token_len_eq(s, lo + 1, j);
    }
}

/// A token holds no delimiter, no comma, and does not start like the root
/// literal.
proof fn lemma_token_shape(a: Action)
    ensures
        spec_token(a).len() >= 1,
        forall|k: int|
            0 <= k < spec_token(a).len() ==> !is_delim(#[trigger] spec_token(a)[k]) && spec_token(
                a,
            )[k] != LINE_COMMA,
        spec_token(a)[0] != 40u8,
{
    let t = spec_token(a);
    match a {
        Action::Fold => {},
        Action::Check => {},
        Action::Call => {},
        Action::Bet(n) => {
            lemma_dec_digits_are_digits(n as nat);
            assert forall|k: int| 0 <= k < t.len() implies !is_delim(#[trigger] t[k]) && t[k]
                != LINE_COMMA by {
                if k >= 1 {
                    assert(t[k] == dec_digits(n as nat)[k - 1]);
                    assert(is_digit(dec_digits(n as nat)[k - 1]));
                }
            }
        },
        Action::Raise(n) => {
            lemma_dec_digits_are_digits(n as nat);
            assert forall|k: int| 0 <= k < t.len() implies !is_delim(#[trigger] t[k]) && t[k]
                != LINE_COMMA by {
                if k >= 1 {
                    assert(t[k] == dec_digits(n as nat)[k - 1]);
                    assert(is_digit(dec_digits(n as nat)[k - 1]));
                }
            }
        },
        Action::AllIn(n) => {
            lemma_dec_digits_are_digits(n as nat);
            assert forall|k: int| 0 <= k < t.len() implies !is_delim(#[trigger] t[k]) && t[k]
                != LINE_COMMA by {
                if k >= 1 {
                    assert(t[k] == dec_digits(n as nat)[k - 1]);
                    assert(is_digit(dec_digits(n as nat)[k - 1]));
                }
            }
        },
    }
}

/// Decoding the encoded tail of a line from its `i`-th action on recovers
/// exactly those actions, whatever flag the encoder carried in.
proof fn lemma_decode_encoded_tail(line: Seq<Action>, i: int, flag: int)
    requires
        0 <= i < line.len(),
    ensures
        spec_decode_tokens(spec_token(line[i]) + spec_encode_from(line, i + 1, flag)) == Some(
            line.skip(i),
        ),
    decreases line.len() - i,
{
    let tok = spec_token(line[i]);
    let s = tok + spec_encode_from(line, i + 1, flag);
    lemma_token_shape(line[i]);
    lemma_token_round_trip(line[i]);
    if i + 1 == line.len() {
        assert(s =~= tok);
        lemma_token_len_eq(s, 0, s.len() as int);
        assert(s.take(token_len(s, 0) as int) =~= tok);
        assert(line.skip(i) =~= seq![line[i]]);
    } else {
        let d = spec_delim(flag);
        let a2 = line[i + 1];
        let tail = spec_token(a2) + spec_encode_from(line, i + 2, spec_step_flag(flag, a2));
        assert(spec_encode_from(line, i + 1, flag) == seq![d] + spec_token(a2) + spec_encode_from(
            line,
            i + 2,
            spec_step_flag(flag, a2),
        ));
        assert(s =~= tok + seq![d] + tail);
        assert(is_delim(s[tok.len() as int]));
        lemma_token_len_eq(s, 0, tok.len() as int);
        assert(s.take(tok.len() as int) =~= tok);
        lemma_token_shape(a2);
        assert(s.len() > tok.len());
        assert(s.skip(tok.len() as int + 1) =~= tail);
        lemma_decode_encoded_tail(line, i + 1, spec_step_flag(flag, a2));
        assert(line.skip(i) =~= seq![line[i]] + line.skip(i + 1));
    }
}

/// Decoding a canonically encoded line gives back the line; in particular the
/// root literal decodes to the empty line.
pub proof fn lemma_line_round_trip(line: Seq<Action>)
    ensures
        spec_decode_line(spec_encode_line(line)) == Some(line),
{
    if line.len() == 0 {
        assert(spec_encode_line(line) == root_line());
    } else {
        let s = spec_encode_line(line);
        lemma_token_shape(line[0]);
        assert(s[0] == spec_token(line[0])[0]);
        assert(root_line()[0] == 40u8);
        assert(s != root_line());
        lemma_decode_encoded_tail(line, 0, spec_upd_flag(0, line[0]));
        assert(line.skip(0) =~= line);
    }
}

/// A byte string in the image of the encoder is reproduced exactly by
/// decoding it and encoding the result: the codec round-trips both ways.
pub proof fn lemma_encode_of_decode(s: Seq<u8>, line: Seq<Action>)
    requires
        s == spec_encode_line(line),
    ensures
        spec_decode_line(s) == Some(line),
        spec_encode_line(line) == s,
{
    lemma_line_round_trip(line);
}

/// Renders a line in its canonical byte encoding.
pub fn encode_line(line: &Vec<Action>) -> (r: Vec<u8>)
    ensures
        r@ == spec_encode_line(line@),
{
    let mut out: Vec<u8> = Vec::new();
    if line.len() == 0 {
        out.push(40u8);
        out.push(82u8);
        out.push(111u8);
        out.push(111u8);
        out.push(116u8);
        out.push(41u8);
        assert(out@ =~= root_line());
        return out;
    }
    push_token(&mut out, line[0]);
    let mut flag: u8 = match line[0] {
        Action::Check => 1,
        Action::Call => 2,
        _ => 0,
    };
    assert(flag as int == spec_upd_flag(0, line@[0]));
    let mut i: usize = 1;
    while i < line.len()
        invariant
            1 <= i <= line@.len(),
            flag <= 2,
            out@ + spec_encode_from(line@, i as int, flag as int) == spec_encode_line(line@),
        decreases line@.len() - i,
    {
        let ghost pre = out@;
        let ghost preflag = flag as int;
        let a = line[i];
        if flag == 2 {
            out.push(DELIM_PIPE);
            flag = 0;
        } else {
            out.push(DELIM_DASH);
        }
        flag = match a {
            Action::Check => flag + 1,
            Action::Call => 2,
            _ => 0,
        };
        push_token(&mut out, a);
        proof {
            assert(flag as int == spec_step_flag(preflag, line@[i as int]));
            assert(spec_encode_from(line@, i as int, preflag) == seq![spec_delim(preflag)]
                + spec_token(line@[i as int]) + spec_encode_from(
                line@,
                i as int + 1,
                spec_step_flag(preflag, line@[i as int]),
            ));
            assert(out@ =~= pre + seq![spec_delim(preflag)] + spec_token(line@[i as int]));
            assert(out@ + spec_encode_from(line@, i as int + 1, flag as int) =~= pre
                + spec_encode_from(line@, i as int, preflag));
        }
        i = i + 1;
    }
    proof {
        assert(spec_encode_from(line@, i as int, flag as int) =~= Seq::<u8>::empty());
        assert(out@ =~= out@ + Seq::<u8>::empty());
    }
    out
}

/// Whether `s[lo..hi]` is exactly the root literal.
fn is_root_range(s: &Vec<u8>, lo: usize, hi: usize) -> (b: bool)
    requires
        lo <= hi <= s@.len(),
    ensures
        b == (s@.subrange(lo as int, hi as int) == root_line()),
{
    let ghost t = s@.subrange(lo as int, hi as int);
    if hi - lo != 6 {
        assert(t.len() != root_line().len());
        return false;
    }
    let ok = s[lo] == 40u8 && s[lo + 1] == 82u8 && s[lo + 2] == 111u8 && s[lo + 3] == 111u8 && s[lo
        + 4] == 116u8 && s[lo + 5] == 41u8;
    if ok {
        assert(t =~= root_line());
        true
    } else {
        assert(t != root_line()) by {
            if t == root_line() {
                assert(t[0] == 40u8 && t[1] == 82u8 && t[2] == 111u8 && t[3] == 111u8 && t[4]
                    == 116u8 && t[5] == 41u8);
            }
        }
        false
    }
}

/// Decodes the line held in `s[lo..hi]`; `None` on any malformed token.
pub fn decode_line_range(s: &Vec<u8>, lo: usize, hi: usize) -> (r: Option<Vec<Action>>)
    requires
        lo <= hi <= s@.len(),
    ensures
        match r {
            Some(v) => spec_decode_line(s@.subrange(lo as int, hi as int)) == Some(v@),
            None => spec_decode_line(s@.subrange(lo as int, hi as int)) is None,
        },
{
    let ghost t = s@.subrange(lo as int, hi as int);
    if is_root_range(s, lo, hi) {
        let empty: Vec<Action> = Vec::new();
        return Some(empty);
    }
    let mut acc: Vec<Action> = Vec::new();
    let mut cur: usize = lo;
    proof {
        assert(t.skip(0) =~= t);
    }
    while cur <= hi
        invariant
            lo <= cur <= hi <= s@.len(),
            t == s@.subrange(lo as int, hi as int),
            t != root_line(),
            match spec_decode_tokens(t.skip(cur - lo)) {
                Some(r) => spec_decode_tokens(t) == Some(acc@ + r),
                None => spec_decode_tokens(t) is None,
            },
        decreases hi + 1 - cur,
    {
        let ghost u = t.skip(cur - lo);
        // scan to the end of the current token
        let mut j: usize = cur;
        while j < hi && !(s[j] == DELIM_DASH || s[j] == DELIM_PIPE)
            invariant
                cur <= j <= hi <= s@.len(),
                forall|k: int| cur <= k < j ==> !is_delim(#[trigger] s@[k]),
            decreases hi - j,
        {
            j = j + 1;
        }
        proof {
            assert forall|k: int| 0 <= k < j - cur implies !is_delim(#[trigger] u[k]) by {
                assert(u[k] == s@[cur + k]);
            }
            if j < hi {
                assert(u[j - cur] == s@[j as int]);
            }
            lemma_token_len_eq(u, 0, j - cur);
            assert(u.take(j - cur) =~= s@.subrange(cur as int, j as int));
        }
        match decode_token(s, cur, j) {
            None => {
                return None;
            },
            Some(a) => {
                acc.push(a);
                if j == hi {
                    proof {
                        assert(spec_decode_tokens(u) == Some(seq![a]));
                    }
                    return Some(acc);
                }
                proof {
                    assert(u.skip(j - cur + 1) =~= t.skip(j + 1 - lo));
                    let r2 = spec_decode_tokens(t.skip(j + 1 - lo));
                    if r2 is Some {
                        assert(spec_decode_tokens(u) == Some(seq![a] + r2.unwrap()));
                        assert(acc@ + r2.unwrap() =~= (acc@.drop_last() + (seq![a]
                            + r2.unwrap())));
                    }
                }
                cur = j + 1;
            },
        }
    }
    None
}

/// Decodes a whole byte string as one line.
pub fn decode_line(s: &Vec<u8>) -> (r: Option<Vec<Action>>)
    ensures
        match r {
            Some(v) => spec_decode_line(s@) == Some(v@),
            None => spec_decode_line(s@) is None,
        },
{
    let n = s.len();
    let r = decode_line_range(s, 0, n);
    proof {
        assert(s@.subrange(0, s@.len() as int) =~= s@);
    }
    r
}

/// The sequences of actions held in a vector of lines.
pub open spec fn lines_view(ls: Seq<Vec<Action>>) -> Seq<Seq<Action>> {
    ls.map_values(|l: Vec<Action>| l@)
}

/// Encoding of the lines of `ls` from position `i` on, each preceded by a
/// comma.
pub open spec fn spec_encode_lines_from(ls: Seq<Seq<Action>>, i: int) -> Seq<u8>
    decreases ls.len() - i,
{
    if i < 0 || i >= ls.len() {
        Seq::empty()
    } else {
        seq![LINE_COMMA] + spec_encode_line(ls[i]) + spec_encode_lines_from(ls, i + 1)
    }
}

/// The canonical byte encoding of a list of lines: the encoded lines joined
/// by commas, the empty list encoding as the empty string.
pub open spec fn spec_encode_lines(ls: Seq<Seq<Action>>) -> Seq<u8> {
    if ls.len() == 0 {
        Seq::empty()
    } else {
        spec_encode_line(ls[0]) + spec_encode_lines_from(ls, 1)
    }
}

/// Length of the comma-free run starting at `i`.
pub open spec fn seg_len(s: Seq<u8>, i: int) -> nat
    decreases s.len() - i,
{
    if i < 0 || i >= s.len() || s[i] == LINE_COMMA {
        0
    } else {
        1 + seg_len(s, i + 1)
    }
}

/// The list of lines a comma-separated byte string stands for; the empty
/// string stands for no lines at all.
pub open spec fn spec_decode_lines(s: Seq<u8>) -> Option<Seq<Seq<Action>>>
    decreases s.len(),
{
    if s.len() == 0 {
        Some(Seq::empty())
    } else {
        let sl = seg_len(s, 0) as int;
        match spec_decode_line(s.take(sl)) {
            None => None,
            Some(l) => if sl >= s.len() {
                Some(seq![l])
            } else {
                match spec_decode_lines(s.skip(sl + 1)) {
                    None => None,
                    Some(r) => Some(seq![l] + r),
                }
            },
        }
    }
}

/// A comma-free run is exactly as long as the scan that found it.
pub proof fn lemma_seg_len_eq(s: Seq<u8>, lo: int, j: int)
    requires
        0 <= lo <= j <= s.len(),
        forall|k: int| lo <= k < j ==> #[trigger] s[k] != LINE_COMMA,
        j == s.len() || s[j] == LINE_COMMA,
    ensures
        seg_len(s, lo) == j - lo,
    decreases j - lo,
{
    if lo < j {
        lemma_seg_len_eq(s, lo + 1, j);
    }
}

/// An encoded line is non-empty and holds no comma.
proof fn lemma_encode_from_no_comma(line: Seq<Action>, i: int, flag: int)
    ensures
        forall|k: int|
            0 <= k < spec_encode_from(line, i, flag).len() ==> #[trigger] spec_encode_from(
                line,
                i,
                flag,
            )[k] != LINE_COMMA,
    decreases line.len() - i,
{
    if 0 <= i < line.len() {
        let s = spec_encode_from(line, i, flag);
        let tok = spec_token(line[i]);
        let rest = spec_encode_from(line, i + 1, spec_step_flag(flag, line[i]));
        lemma_token_shape(line[i]);
        lemma_encode_from_no_comma(line, i + 1, spec_step_flag(flag, line[i]));
        assert forall|k: int| 0 <= k < s.len() implies #[trigger] s[k] != LINE_COMMA by {
            if k == 0 {
                assert(s[0] == spec_delim(flag));
            } else if k < 1 + tok.len() {
                assert(s[k] == tok[k - 1]);
            } else {
                assert(s[k] == rest[k - 1 - tok.len()]);
            }
        }
    }
}

/// The encoding of any line is non-empty and holds no comma.
proof fn lemma_encode_line_no_comma(line: Seq<Action>)
    ensures
        spec_encode_line(line).len() >= 1,
        forall|k: int|
            0 <= k < spec_encode_line(line).len() ==> #[trigger] spec_encode_line(line)[k]
                != LINE_COMMA,
{
    let s = spec_encode_line(line);
    if line.len() == 0 {
        assert forall|k: int| 0 <= k < s.len() implies #[trigger] s[k] != LINE_COMMA by {
            assert(s == root_line());
            assert(root_line()[0] == 40u8 && root_line()[1] == 82u8 && root_line()[2] == 111u8
                && root_line()[3] == 111u8 && root_line()[4] == 116u8 && root_line()[5] == 41u8);
        }
    } else {
        let tok = spec_token(line[0]);
        let rest = spec_encode_from(line, 1, spec_upd_flag(0, line[0]));
        lemma_token_shape(line[0]);
        lemma_encode_from_no_comma(line, 1, spec_upd_flag(0, line[0]));
        assert forall|k: int| 0 <= k < s.len() implies #[trigger] s[k] != LINE_COMMA by {
            if k < tok.len() {
                assert(s[k] == tok[k]);
            } else {
                assert(s[k] == rest[k - tok.len()]);
            }
        }
    }
}

/// Decoding the encoded tail of a line list from its `i`-th line on recovers
/// exactly those lines.
proof fn lemma_decode_encoded_lines_tail(ls: Seq<Seq<Action>>, i: int)
    requires
        0 <= i < ls.len(),
    ensures
        spec_decode_lines(spec_encode_line(ls[i]) + spec_encode_lines_from(ls, i + 1)) == Some(
            ls.skip(i),
        ),
    decreases ls.len() - i,
{
    let e = spec_encode_line(ls[i]);
    let s = e + spec_encode_lines_from(ls, i + 1);
    lemma_encode_line_no_comma(ls[i]);
    lemma_line_round_trip(ls[i]);
    if i + 1 == ls.len() {
        assert(s =~= e);
        lemma_seg_len_eq(s, 0, s.len() as int);
        assert(s.take(seg_len(s, 0) as int) =~= e);
        assert(ls.skip(i) =~= seq![ls[i]]);
    } else {
        let tail = spec_encode_line(ls[i + 1]) + spec_encode_lines_from(ls, i + 2);
        assert(spec_encode_lines_from(ls, i + 1) == seq![LINE_COMMA] + spec_encode_line(ls[i + 1])
            + spec_encode_lines_from(ls, i + 2));
        assert(s =~= e + seq![LINE_COMMA] + tail);
        assert(s[e.len() as int] == LINE_COMMA);
        lemma_seg_len_eq(s, 0, e.len() as int);
        assert(s.take(e.len() as int) =~= e);
        lemma_encode_line_no_comma(ls[i + 1]);
        assert(s.len() > e.len());
        assert(s.skip(e.len() as int + 1) =~= tail);
        lemma_decode_encoded_lines_tail(ls, i + 1);
        assert(ls.skip(i) =~= seq![ls[i]] + ls.skip(i + 1));
    }
}

/// Decoding a canonically encoded line list gives back the list.
pub proof fn lemma_lines_round_trip(ls: Seq<Seq<Action>>)
    ensures
        spec_decode_lines(spec_encode_lines(ls)) == Some(ls),
{
    if ls.len() == 0 {
    } else {
        lemma_decode_encoded_lines_tail(ls, 0);
        assert(ls.skip(0) =~= ls);
    }
}

/// Renders a list of lines, joined by commas.
pub fn encode_lines(ls: &Vec<Vec<Action>>) -> (r: Vec<u8>)
    ensures
        r@ == spec_encode_lines(lines_view(ls@)),
{
    let ghost lv = lines_view(ls@);
    let mut out: Vec<u8> = Vec::new();
    if ls.len() == 0 {
        assert(out@ =~= spec_encode_lines(lv));
        return out;
    }
    let mut first = encode_line(&ls[0]);
    out.append(&mut first);
    let mut i: usize = 1;
    while i < ls.len()
        invariant
            1 <= i <= ls@.len(),
            lv == lines_view(ls@),
            out@ + spec_encode_lines_from(lv, i as int) == spec_encode_lines(lv),
        decreases ls@.len() - i,
    {
        let ghost pre = out@;
        out.push(LINE_COMMA);
        let mut e = encode_line(&ls[i]);
        out.append(&mut e);
        proof {
            assert(spec_encode_lines_from(lv, i as int) == seq![LINE_COMMA] + spec_encode_line(
                lv[i as int],
            ) + spec_encode_lines_from(lv, i as int + 1));
            assert(out@ =~= pre + seq![LINE_COMMA] + spec_encode_line(lv[i as int]));
            assert(out@ + spec_encode_lines_from(lv, i as int + 1) =~= pre
                + spec_encode_lines_from(lv, i as int));
        }
        i = i + 1;
    }
    proof {
        assert(spec_encode_lines_from(lv, i as int) =~= Seq::<u8>::empty());
        assert(out@ =~= out@ + Seq::<u8>::empty());
    }
    out
}

/// Decodes a comma-separated byte string into its list of lines.
pub fn decode_lines(s: &Vec<u8>) -> (r: Option<Vec<Vec<Action>>>)
    ensures
        match r {
            Some(v) => spec_decode_lines(s@) == Some(lines_view(v@)),
            None => spec_decode_lines(s@) is None,
        },
{
    let n = s.len();
    let mut acc: Vec<Vec<Action>> = Vec::new();
    let mut cur: usize = 0;
    proof {
        assert(s@.skip(0) =~= s@);
        assert(lines_view(acc@) =~= Seq::<Seq<Action>>::empty());
    }
    while cur < n
        invariant
            cur <= n == s@.len(),
            match spec_decode_lines(s@.skip(cur as int)) {
                Some(r) => spec_decode_lines(s@) == Some(lines_view(acc@) + r),
                None => spec_decode_lines(s@) is None,
            },
        decreases n - cur,
    {
        let ghost u = s@.skip(cur as int);
        let mut j: usize = cur;
        while j < n && s[j] != LINE_COMMA
            invariant
                cur <= j <= n <= s@.len(),
                forall|k: int| cur <= k < j ==> #[trigger] s@[k] != LINE_COMMA,
            decreases n - j,
        {
            j = j + 1;
        }
        proof {
            assert forall|k: int| 0 <= k < j - cur implies #[trigger] u[k] != LINE_COMMA by {
                assert(u[k] == s@[cur + k]);
            }
            if j < n {
                assert(u[j - cur] == s@[j as int]);
            }
            lemma_seg_len_eq(u, 0, j - cur);
            assert(u.take(j - cur) =~= s@.subrange(cur as int, j as int));
        }
        match decode_line_range(s, cur, j) {
            None => {
                return None;
            },
            Some(l) => {
                let ghost lview = l@;
                acc.push(l);
                proof {
                    assert(lines_view(acc@) =~= lines_view(acc@.drop_last()).push(lview));
                }
                if j == n {
                    proof {
                        assert(spec_decode_lines(u) == Some(seq![lview]));
                        assert(lines_view(acc@.drop_last()) + seq![lview] =~= lines_view(acc@));
                    }
                    return Some(acc);
                }
                proof {
                    assert(u.skip(j - cur + 1) =~= s@.skip(j + 1));
                    let r2 = spec_decode_lines(s@.skip(j + 1));
                    if r2 is Some {
                        assert(spec_decode_lines(u) == Some(seq![lview] + r2.unwrap()));
                        assert(lines_view(acc@) + r2.unwrap() =~= lines_view(acc@.drop_last())
                            + (seq![lview] + r2.unwrap()));
                    }
                }
                cur = j + 1;
            },
        }
    }
    proof {
        assert(s@.skip(cur as int) =~= Seq::<u8>::empty());
        assert(lines_view(acc@) + Seq::<Seq<Action>>::empty() =~= lines_view(acc@));
    }
    Some(acc)
}

} // verus!
