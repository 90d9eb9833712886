//! The textual notation of a hand range.
//!
//! A range renders as comma-separated entries, one per populated grid cell in
//! row-major grid order: a pocket pair as its two rank letters (`AA`), a
//! suited class with an `s` suffix (`AKs`), an offsuit class with `o`
//! (`AKo`).  A weight below 1.0 follows after a colon as a six-digit decimal
//! fraction (`QQ:0.500000`); a weight of exactly 1.0 is omitted.  The parser
//! accepts one to six fraction digits and the bare weights `0` and `1`;
//! parsing replaces the whole range, and a malformed entry leaves the
//! previous range untouched.

use vstd::prelude::*;

use crate::action::{dec_val, all_digits, DIGIT_ZERO};
use crate::range::{RangeManager, WEIGHT_SCALE};

verus! {

/// Why a range string was refused.
#[derive(Clone, Copy, PartialEq, Eq, Structural, Debug)]
pub enum RangeTextError {
    /// An entry does not follow the range notation.
    Malformed,
}

impl RangeTextError {
    /// A human-readable description of the failure.
    pub fn message(&self) -> (s: String)
        ensures
            s@ == "Failed to parse range"@,
    {
        "Failed to parse range".to_owned()
    }
}

/// The rank letter of a zero-based rank: 12 is the ace, 0 the deuce.
pub open spec fn spec_rank_char(rank0: int) -> u8 {
    if rank0 == 12 {
        65u8
    } else if rank0 == 11 {
        75u8
    } else if rank0 == 10 {
        81u8
    } else if rank0 == 9 {
        74u8
    } else if rank0 == 8 {
        84u8
    } else {
        (DIGIT_ZERO + rank0 + 2) as u8
    }
}

/// The zero-based rank of a letter, or none.
pub open spec fn spec_char_rank(b: u8) -> Option<int> {
    if b == 65u8 {
        Some(12int)
    } else if b == 75u8 {
        Some(11int)
    } else if b == 81u8 {
        Some(10int)
    } else if b == 74u8 {
        Some(9int)
    } else if b == 84u8 {
        Some(8int)
    } else if 50u8 <= b <= 57u8 {
        Some(b - DIGIT_ZERO - 2)
    } else {
        None
    }
}

/// Reads the rank letter of a zero-based rank.
pub fn rank_char(rank0: u8) -> (r: u8)
    requires
        rank0 <= 12,
    ensures
        r == spec_rank_char(rank0 as int),
{
    if rank0 == 12 {
        65
    } else if rank0 == 11 {
        75
    } else if rank0 == 10 {
        81
    } else if rank0 == 9 {
        74
    } else if rank0 == 8 {
        84
    } else {
        DIGIT_ZERO + rank0 + 2
    }
}

/// Reads the zero-based rank of a letter.
pub fn char_rank(b: u8) -> (r: Option<u8>)
    ensures
        match r {
            Some(v) => spec_char_rank(b) == Some(v as int) && v <= 12,
            None => spec_char_rank(b) is None,
        },
{
    if b == 65 {
        Some(12)
    } else if b == 75 {
        Some(11)
    } else if b == 81 {
        Some(10)
    } else if b == 74 {
        Some(9)
    } else if b == 84 {
        Some(8)
    } else if 50 <= b && b <= 57 {
        Some(b - DIGIT_ZERO - 2)
    } else {
        None
    }
}

/// The name of a grid cell, from its row-major index.
pub open spec fn spec_cell_name(cell: int) -> Seq<u8> {
    let row = cell / 13;
    let col = cell % 13;
    if row == col {
        seq![spec_rank_char(12 - row), spec_rank_char(12 - col)]
    } else if row < col {
        seq![spec_rank_char(12 - row), spec_rank_char(12 - col), 115u8]
    } else {
        seq![spec_rank_char(12 - col), spec_rank_char(12 - row), 111u8]
    }
}

/// The six-digit decimal fraction of a weight below 1.0, preceded by `0.`.
pub open spec fn spec_weight_text(w: int) -> Seq<u8> {
    seq![
        DIGIT_ZERO,
        46u8,
        (DIGIT_ZERO + w / 100000 % 10) as u8,
        (DIGIT_ZERO + w / 10000 % 10) as u8,
        (DIGIT_ZERO + w / 1000 % 10) as u8,
        (DIGIT_ZERO + w / 100 % 10) as u8,
        (DIGIT_ZERO + w / 10 % 10) as u8,
        (DIGIT_ZERO + w % 10) as u8,
    ]
}

/// One rendered entry: the cell name, with the weight suffix when the weight
/// is not full.
pub open spec fn spec_entry_text(cell: int, w: int) -> Seq<u8> {
    if w == WEIGHT_SCALE {
        spec_cell_name(cell)
    } else {
        spec_cell_name(cell) + seq![58u8] + spec_weight_text(w)
    }
}

/// The rendering of a grid from cell `i` on: the non-empty cells' entries,
/// comma-separated in row-major order.
pub open spec fn spec_render(g: Seq<u32>, i: int, first: bool) -> Seq<u8>
    decreases g.len() - i,
{
    if i < 0 || i >= g.len() {
        Seq::empty()
    } else if g[i] == 0 {
        spec_render(g, i + 1, first)
    } else {
        (if first {
            Seq::empty()
        } else {
            seq![44u8]
        }) + spec_entry_text(i, g[i] as int) + spec_render(g, i + 1, false)
    }
}

/// Renders one player's range in the textual notation.
#[verifier::rlimit(100)]
pub fn range_to_string(rm: &RangeManager, player: usize) -> (r: Vec<u8>)
    requires
        rm.wf(),
        player < 6,
    ensures
        r@ == spec_render(rm.grid(player as int), 0, true),
{
    let g = rm.player_grid(player);
    let mut out: Vec<u8> = Vec::new();
    let mut first = true;
    let mut i: usize = 0;
    proof {
        rm.lemma_grid_wf(player as int);
        assert(out@ + spec_render(g@, 0, true) =~= spec_render(g@, 0, true));
    }
    while i < 169
        invariant
            i <= 169,
            g@ == rm.grid(player as int),
            g.wf(),
            out@ + spec_render(g@, i as int, first) == spec_render(g@, 0, true),
        decreases 169 - i,
    {
        let w = g.cell(i);
        if w != 0 {
            let ghost pre = out@;
            if !first {
                out.push(44u8);
            }
            let row = i / 13;
            let col = i % 13;
            if row == col {
                out.push(rank_char(12 - row as u8));
                out.push(rank_char(12 - col as u8));
            } else if row < col {
                out.push(rank_char(12 - row as u8));
                out.push(rank_char(12 - col as u8));
                out.push(115u8);
            } else {
                out.push(rank_char(12 - col as u8));
                out.push(rank_char(12 - row as u8));
                out.push(111u8);
            }
            if w != WEIGHT_SCALE {
                out.push(58u8);
                out.push(DIGIT_ZERO);
                out.push(46u8);
                out.push(DIGIT_ZERO + (w / 100000 % 10) as u8);
                out.push(DIGIT_ZERO + (w / 10000 % 10) as u8);
                out.push(DIGIT_ZERO + (w / 1000 % 10) as u8);
                out.push(DIGIT_ZERO + (w / 100 % 10) as u8);
                out.push(DIGIT_ZERO + (w / 10 % 10) as u8);
                out.push(DIGIT_ZERO + (w % 10) as u8);
            }
            proof {
                assert(out@ =~= pre + (if first {
                    Seq::<u8>::empty()
                } else {
                    seq![44u8]
                }) + spec_entry_text(i as int, g@[i as int] as int));
                assert(out@ + spec_render(g@, i as int + 1, false) =~= pre + spec_render(
                    g@,
                    i as int,
                    first,
                ));
            }
            first = false;
        }
        i = i + 1;
    }
    proof {
        assert(spec_render(g@, 169, first) =~= Seq::<u8>::empty());
        assert(out@ =~= out@ + Seq::<u8>::empty());
    }
    out
}

/// The cell and weight one entry stands for, or none.
pub open spec fn spec_entry(t: Seq<u8>) -> Option<(int, u32)> {
    let name_len = if t.len() >= 3 && (t[2] == 115u8 || t[2] == 111u8) {
        3int
    } else {
        2int
    };
    if t.len() < name_len {
        None
    } else {
        match (spec_char_rank(t[0]), spec_char_rank(t[1])) {
            (Some(r1), Some(r2)) => {
                let cell = if name_len == 2 {
                    if r1 == r2 {
                        Some((12 - r1) * 13 + (12 - r2))
                    } else {
                        None::<int>
                    }
                } else if r1 == r2 {
                    None::<int>
                } else {
                    let hi = if r1 > r2 {
                        r1
                    } else {
                        r2
                    };
                    let lo = if r1 > r2 {
                        r2
                    } else {
                        r1
                    };
                    if t[2] == 115u8 {
                        Some((12 - hi) * 13 + (12 - lo))
                    } else {
                        Some((12 - lo) * 13 + (12 - hi))
                    }
                };
                match cell {
                    None => None,
                    Some(c) => if t.len() == name_len {
                        Some((c, WEIGHT_SCALE))
                    } else {
                        match spec_entry_weight(t.skip(name_len)) {
                            None => None,
                            Some(w) => Some((c, w)),
                        }
                    },
                }
            },
            _ => None,
        }
    }
}

/// The weight a `:`-suffix stands for: `1`, `0`, or `0.` with one to six
/// fraction digits, scaled to micro-units.
pub open spec fn spec_entry_weight(t: Seq<u8>) -> Option<u32> {
    if t.len() < 2 || t[0] != 58u8 {
        None
    } else {
        let w = t.skip(1);
        if w.len() == 1 && w[0] == (DIGIT_ZERO + 1) as u8 {
            Some(WEIGHT_SCALE)
        } else if w.len() == 1 && w[0] == DIGIT_ZERO {
            Some(0u32)
        } else if w.len() >= 3 && w.len() <= 8 && w[0] == DIGIT_ZERO && w[1] == 46u8 && all_digits(
            w.skip(2),
        ) {
            Some((dec_val(w.skip(2)) * pow10(6 - (w.len() - 2))) as u32)
        } else {
            None
        }
    }
}

/// Powers of ten for fraction scaling.
pub open spec fn pow10(n: int) -> int
    decreases n,
{
    if n <= 0 {
        1
    } else {
        10 * pow10(n - 1)
    }
}

/// Reads a power of ten.
fn pow10_exec(n: usize) -> (r: u64)
    requires
        n <= 6,
    ensures
        r == pow10(n as int),
        1 <= r <= 1000000,
{
    proof {
        lemma_pow10_values();
    }
    let mut r: u64 = 1;
    let mut i: usize = 0;
    while i < n
        invariant
            i <= n <= 6,
            r == pow10(i as int),
            1 <= r <= 1000000,
        decreases n - i,
    {
        proof {
            assert(pow10(i + 1) == 10 * pow10(i as int));
            lemma_pow10_values();
            lemma_pow10_mono(i + 1, 6);
        }
        r = r * 10;
        i = i + 1;
    }
    r
}

/// The concrete small powers of ten.
proof fn lemma_pow10_values()
    ensures
        pow10(0) == 1,
        pow10(1) == 10,
        pow10(2) == 100,
        pow10(3) == 1000,
        pow10(4) == 10000,
        pow10(5) == 100000,
        pow10(6) == 1000000,
{
    assert(pow10(0) == 1);
    assert(pow10(1) == 10);
    assert(pow10(2) == 100);
    assert(pow10(3) == 1000);
    assert(pow10(4) == 10000);
    assert(pow10(5) == 100000);
    assert(pow10(6) == 1000000);
}

/// Powers of ten grow with the exponent.
proof fn lemma_pow10_mono(a: int, b: int)
    requires
        0 <= a <= b,
    ensures
        pow10(a) <= pow10(b),
    decreases b,
{
    if a < b {
        lemma_pow10_mono(a, b - 1);
        lemma_pow10_pos(b - 1);
    }
}

/// Parses one entry held in `s[lo..hi]`.
fn parse_entry(s: &Vec<u8>, lo: usize, hi: usize) -> (r: Option<(usize, u32)>)
    requires
        lo <= hi <= s@.len(),
    ensures
        match r {
            Some((cell, w)) => spec_entry(s@.subrange(lo as int, hi as int)) == Some(
                (cell as int, w),
            ) && cell < 169 && w <= WEIGHT_SCALE,
            None => spec_entry(s@.subrange(lo as int, hi as int)) is None,
        },
{
    let ghost t = s@.subrange(lo as int, hi as int);
    if hi - lo < 2 {
        return None;
    }
    let name_len: usize = if hi - lo >= 3 && (s[lo + 2] == 115u8 || s[lo + 2] == 111u8) {
        3
    } else {
        2
    };
    let r1 = match char_rank(s[lo]) {
        Some(v) => v,
        None => {
            return None;
        },
    };
    let r2 = match char_rank(s[lo + 1]) {
        Some(v) => v,
        None => {
            return None;
        },
    };
    let cell: usize = if name_len == 2 {
        if r1 == r2 {
            (12 - r1 as usize) * 13 + (12 - r2 as usize)
        } else {
            return None;
        }
    } else {
        if r1 == r2 {
            return None;
        }
        let hi_r = if r1 > r2 {
            r1 as usize
        } else {
            r2 as usize
        };
        let lo_r = if r1 > r2 {
            r2 as usize
        } else {
            r1 as usize
        };
        if s[lo + 2] == 115u8 {
            (12 - hi_r) * 13 + (12 - lo_r)
        } else {
            (12 - lo_r) * 13 + (12 - hi_r)
        }
    };
    if lo + name_len == hi {
        return Some((cell, WEIGHT_SCALE));
    }
    let ghost wt = t.skip(name_len as int);
    proof {
        assert(wt =~= s@.subrange(lo + name_len, hi as int));
    }
    let w = match parse_entry_weight(s, lo + name_len, hi) {
        Some(w) => w,
        None => {
            return None;
        },
    };
    Some((cell, w))
}

/// Parses the weight suffix held in `s[lo..hi]`.
fn parse_entry_weight(s: &Vec<u8>, lo: usize, hi: usize) -> (r: Option<u32>)
    requires
        lo <= hi <= s@.len(),
    ensures
        match r {
            Some(w) => spec_entry_weight(s@.subrange(lo as int, hi as int)) == Some(w) && w
                <= WEIGHT_SCALE,
            None => spec_entry_weight(s@.subrange(lo as int, hi as int)) is None,
        },
{
    let ghost t = s@.subrange(lo as int, hi as int);
    if hi - lo < 2 {
        return None;
    }
    if s[lo] != 58u8 {
        return None;
    }
    let ghost w = t.skip(1);
    proof {
        assert(w =~= s@.subrange(lo + 1, hi as int));
    }
    proof {
        assert(w[0] == s@[lo + 1]);
        if hi - lo >= 3 {
            assert(w[1] == s@[lo + 2]);
        }
    }
    if hi - lo == 2 {
        if s[lo + 1] == DIGIT_ZERO + 1 {
            return Some(WEIGHT_SCALE);
        }
        if s[lo + 1] == DIGIT_ZERO {
            return Some(0);
        }
        return None;
    }
    proof {
        assert(w.len() >= 2);
    }
    if hi - lo < 4 || hi - lo > 9 {
        return None;
    }
    if s[lo + 1] != DIGIT_ZERO || s[lo + 2] != 46u8 {
        return None;
    }
    proof {
        assert(w.skip(2) =~= s@.subrange(lo + 3, hi as int));
    }
    let frac = match crate::action::parse_amount(s, lo + 3, hi) {
        Some(v) => v,
        None => {
            proof {
                let ww = s@.subrange(lo + 3, hi as int);
                if all_digits(ww) {
                    lemma_frac_bound(ww, ww.len() as int);
                    lemma_pow10_mono(ww.len() as int, 6);
                    lemma_pow10_values();
                }
            }
            return None;
        },
    };
    let digits = hi - (lo + 3);
    let scale = pow10_exec(6 - digits);
    proof {
        lemma_frac_bound(s@.subrange(lo + 3, hi as int), digits as int);
        lemma_pow10_add(digits as int, 6 - digits);
        lemma_pow10_values();
        assert((frac as int) * (scale as int) < 1000000) by (nonlinear_arith)
            requires
                0 <= frac as int <= pow10(digits as int) - 1,
                scale as int == pow10(6 - digits),
                1 <= scale,
                pow10(digits as int) * pow10(6 - digits) == 1000000,
                pow10(digits as int) >= 1,
        ;
        assert((frac as int) * (scale as int) >= 0) by (nonlinear_arith)
            requires
                frac >= 0,
                scale >= 0,
        ;
    }
    let scaled: u64 = (frac as u64) * scale;
    Some(scaled as u32)
}

/// Ten to a sum of exponents is the product of the powers.
proof fn lemma_pow10_add(a: int, b: int)
    requires
        a >= 0,
        b >= 0,
    ensures
        pow10(a + b) == pow10(a) * pow10(b),
        pow10(a) >= 1,
    decreases a,
{
    if a == 0 {
        assert(pow10(b) >= 1) by {
            lemma_pow10_pos(b);
        }
    } else {
        lemma_pow10_add(a - 1, b);
        assert(pow10(a + b) == 10 * pow10(a - 1 + b));
        assert(10 * (pow10(a - 1) * pow10(b)) == (10 * pow10(a - 1)) * pow10(b))
            by (nonlinear_arith);
    }
}

/// Powers of ten are positive.
proof fn lemma_pow10_pos(n: int)
    ensures
        pow10(n) >= 1,
    decreases n,
{
    if n > 0 {
        lemma_pow10_pos(n - 1);
    }
}

/// The grid an entry list stands for, applied left to right over `g`:
/// `None` when any entry is malformed.
pub open spec fn spec_apply_text(s: Seq<u8>, i: int, g: Seq<u32>) -> Option<Seq<u32>>
    decreases s.len() - i,
{
    if i < 0 || i >= s.len() {
        Some(g)
    } else {
        let sl = crate::line::seg_len(s, i) as int;
        match spec_entry(s.subrange(i, i + sl)) {
            None => None,
            Some((c, w)) => if i + sl >= s.len() {
                Some(g.update(c, w))
            } else {
                spec_apply_text(s, i + sl + 1, g.update(c, w))
            },
        }
    }
}

/// The all-zero grid.
pub open spec fn spec_zero_grid() -> Seq<u32> {
    Seq::new(169, |i: int| 0u32)
}

/// Replaces one player's whole range from its textual notation; a malformed
/// entry fails the call and leaves the previous range untouched.  The other
/// players keep theirs.
pub fn range_from_string(rm: &mut RangeManager, player: usize, text: &Vec<u8>) -> (r: Result<
    (),
    RangeTextError,
>)
    requires
        old(rm).wf(),
        player < 6,
    ensures
        final(rm).wf(),
        forall|q: int|
            0 <= q < 6 && q != player ==> final(rm).grid(q) == #[trigger] old(rm).grid(q),
        match r {
            Ok(()) => spec_apply_text(text@, 0, spec_zero_grid()) == Some(
                final(rm).grid(player as int),
            ),
            Err(_) => spec_apply_text(text@, 0, spec_zero_grid()) is None && final(rm).grid(
                player as int,
            ) == old(rm).grid(player as int),
        },
{
    let n = text.len();
    let mut g = crate::range::RangeGrid::new();
    proof {
        assert(g@ =~= spec_zero_grid());
    }
    let mut i: usize = 0;
    while i < n
        invariant
            i <= n == text@.len(),
            g.wf(),
            *rm == *old(rm),
            old(rm).wf(),
            player < 6,
            match spec_apply_text(text@, i as int, g@) {
                Some(res) => spec_apply_text(text@, 0, spec_zero_grid()) == Some(res),
                None => spec_apply_text(text@, 0, spec_zero_grid()) is None,
            },
        decreases n - i,
    {
        let mut j: usize = i;
        while j < n && text[j] != 44u8
            invariant
                i <= j <= n <= text@.len(),
                forall|k: int| i <= k < j ==> #[trigger] text@[k] != 44u8,
            decreases n - j,
        {
            j = j + 1;
        }
        proof {
            if j < n {
                assert(text@[j as int] == 44u8);
            }
            crate::line::lemma_seg_len_eq(text@, i as int, j as int);
        }
        match parse_entry(text, i, j) {
            None => {
                return Err(RangeTextError::Malformed);
            },
            Some((cell, w)) => {
                g.set_cell(cell, w);
            },
        }
        i = if j == n {
            n
        } else {
            j + 1
        };
    }
    crate::range::range_replace_grid(rm, player, g);
    Ok(())
}

/// A digit string of `n` digits is below ten to the `n`.
pub proof fn lemma_frac_bound(s: Seq<u8>, n: int)
    requires
        all_digits(s),
        s.len() == n,
        n >= 0,
    ensures
        dec_val(s) < pow10(n),
    decreases n,
{
    if n > 0 {
        lemma_frac_bound(s.drop_last(), n - 1);
        assert(dec_val(s) == dec_val(s.drop_last()) * 10 + ((s.last() - DIGIT_ZERO) as nat));
        assert(dec_val(s.drop_last()) * 10 <= (pow10(n - 1) - 1) * 10) by (nonlinear_arith)
            requires
                dec_val(s.drop_last()) <= pow10(n - 1) - 1,
        ;
        assert(pow10(n) == 10 * pow10(n - 1));
    }
}

} // verus!
