//! The fixed-point numeric policy of the analysis reports.
//!
//! Display values are carried in signed micro-units: one unit is one
//! millionth of the natural value, so `1_000_000` stands for `1.0`.  Every
//! reported value passes through magnitude-tiered rounding that keeps about
//! six significant digits: values below 1 round to the nearest millionth,
//! below 10 to the nearest hundred-thousandth, and so on up to the nearest
//! tenth.  The equity-realization ratio (EQR) of a player is expected value
//! divided by the pot share implied by raw equity; when the rounded equity is
//! zero the ratio is deliberately undefined — an "insufficient sample"
//! signal, never a finite number.

use vstd::prelude::*;

verus! {

/// Largest magnitude, in micro-units, the numeric policy accepts.
pub const VALUE_CAP: i64 = 1000000000000000000i64;

/// The rounding granule for a value of the given magnitude, in micro-units:
/// about six significant digits are kept.
pub open spec fn spec_tier(v: int) -> int {
    if v < 1000000 {
        1
    } else if v < 10000000 {
        10
    } else if v < 100000000 {
        100
    } else if v < 1000000000 {
        1000
    } else if v < 10000000000 {
        10000
    } else {
        100000
    }
}

/// Rounds to the nearest multiple of `m`, halves away from zero.
pub open spec fn spec_round_to(v: int, m: int) -> int {
    if v >= 0 {
        ((v + m / 2) / m) * m
    } else {
        -(((-v + m / 2) / m) * m)
    }
}

/// The magnitude-tiered rounding applied to every reported value.
pub open spec fn spec_round_tiered(v: int) -> int {
    spec_round_to(v, spec_tier(v))
}

/// Applies the tiered rounding policy to a value in micro-units.
pub fn round_tiered(v: i64) -> (r: i64)
    requires
        -VALUE_CAP <= v <= VALUE_CAP,
    ensures
        r == spec_round_tiered(v as int),
{
    let m: i64 = if v < 1000000 {
        1
    } else if v < 10000000 {
        10
    } else if v < 100000000 {
        100
    } else if v < 1000000000 {
        1000
    } else if v < 10000000000 {
        10000
    } else {
        100000
    };
    if v >= 0 {
        proof {
            let vi = v as int;
            let mi = m as int;
            assert((vi + mi / 2) / mi * mi <= vi + mi / 2) by (nonlinear_arith)
                requires
                    mi >= 1,
                    vi >= 0,
            ;
            assert((vi + mi / 2) / mi * mi >= 0) by (nonlinear_arith)
                requires
                    mi >= 1,
                    vi >= 0,
            ;
        }
        let mag: u64 = (v as u64 + (m as u64) / 2) / (m as u64) * (m as u64);
        mag as i64
    } else {
        proof {
            let vi = -v as int;
            let mi = m as int;
            assert((vi + mi / 2) / mi * mi <= vi + mi / 2) by (nonlinear_arith)
                requires
                    mi >= 1,
                    vi >= 0,
            ;
            assert((vi + mi / 2) / mi * mi >= 0) by (nonlinear_arith)
                requires
                    mi >= 1,
                    vi >= 0,
            ;
        }
        let neg: u64 = ((-v) as u64 + (m as u64) / 2) / (m as u64) * (m as u64);
        -(neg as i64)
    }
}

/// Truncation applied to raw weights before reporting: a weight below
/// 0.0005 counts as zero.
pub open spec fn spec_trunc_weight(w: int) -> int {
    if w < 500 {
        0
    } else {
        w
    }
}

/// Applies the weight truncation to a vector of weights in micro-units.
pub fn trunc_weights(v: &Vec<u64>) -> (r: Vec<u64>)
    ensures
        r@.len() == v@.len(),
        forall|i: int| 0 <= i < v@.len() ==> #[trigger] r@[i] == spec_trunc_weight(v@[i] as int),
{
    let mut out: Vec<u64> = Vec::new();
    let mut i: usize = 0;
    while i < v.len()
        invariant
            i <= v@.len(),
            out@.len() == i,
            forall|k: int| 0 <= k < i ==> #[trigger] out@[k] == spec_trunc_weight(v@[k] as int),
        decreases v@.len() - i,
    {
        let w = v[i];
        if w < 500 {
            out.push(0);
        } else {
            out.push(w);
        }
        i = i + 1;
    }
    out
}

/// Whether every entry of a weight vector is zero: an empty range at the
/// current node.
pub fn weights_all_zero(v: &Vec<u64>) -> (r: bool)
    ensures
        r == (forall|i: int| 0 <= i < v@.len() ==> #[trigger] v@[i] == 0),
{
    let mut i: usize = 0;
    while i < v.len()
        invariant
            i <= v@.len(),
            forall|k: int| 0 <= k < i ==> #[trigger] v@[k] == 0,
        decreases v@.len() - i,
    {
        if v[i] != 0 {
            return false;
        }
        i = i + 1;
    }
    true
}

/// The empty-range bitmask of a report: bit 0 set when the out-of-position
/// player's range is empty at the cursor, bit 1 when the in-position
/// player's is.
pub fn empty_mask(oop_empty: bool, ip_empty: bool) -> (r: u8)
    ensures
        r == (if oop_empty { 1int } else { 0int }) + 2 * (if ip_empty { 1int } else { 0int }),
{
    let a: u8 = if oop_empty { 1 } else { 0 };
    let b: u8 = if ip_empty { 2 } else { 0 };
    a + b
}

/// The per-player pot bases for the EQR: the starting pot plus the smaller
/// committed amount, plus each player's own committed amount.
pub fn eqr_base(starting_pot: u32, bet0: u32, bet1: u32) -> (r: (u64, u64))
    ensures
        r.0 == starting_pot + (if bet0 <= bet1 { bet0 as int } else { bet1 as int }) + bet0,
        r.1 == starting_pot + (if bet0 <= bet1 { bet0 as int } else { bet1 as int }) + bet1,
{
    let low: u64 = if bet0 <= bet1 { bet0 as u64 } else { bet1 as u64 };
    ((starting_pot as u64) + low + (bet0 as u64), (starting_pot as u64) + low + (bet1 as u64))
}

/// The equity-realization ratio in micro-units before tiered rounding:
/// `ev / (pot * equity)`, truncated toward zero and clamped to a magnitude
/// of 1e9 in natural units.
pub open spec fn spec_eqr_quotient(ev_micro: int, pot: int, eq_micro: int) -> int {
    let num = (if ev_micro >= 0 { ev_micro } else { -ev_micro }) * 1000000;
    let mag = num / (pot * eq_micro);
    let clamped = if mag > 1000000000000000 { 1000000000000000int } else { mag };
    if ev_micro >= 0 { clamped } else { -clamped }
}

/// The reported equity-realization ratio of one player: `None` is the
/// explicit undefined signal.  It is `None` exactly when the rounded equity
/// is zero — insufficient sample, never a finite fallback — and otherwise
/// the tier-rounded ratio of expected value to the equity-proportional pot
/// share.
pub fn eqr_report(ev_micro: i64, pot: u64, eq_micro: u64) -> (r: Option<i64>)
    requires
        1 <= pot <= 100000000000,
        eq_micro <= 1000000,
        -1000000000000 <= ev_micro <= 1000000000000,
    ensures
        r is None <==> eq_micro == 0,
        match r {
            Some(x) => x == spec_round_tiered(
                spec_eqr_quotient(ev_micro as int, pot as int, eq_micro as int),
            ),
            None => eq_micro == 0,
        },
{
    if eq_micro == 0 {
        return None;
    }
    let neg = ev_micro < 0;
    let mag: u128 = if neg {
        (-ev_micro) as u128
    } else {
        ev_micro as u128
    };
    proof {
        assert(1 <= (pot as int) * (eq_micro as int) <= 100000000000000000) by (nonlinear_arith)
            requires
                1 <= pot <= 100000000000,
                1 <= eq_micro <= 1000000,
        ;
    }
    let den: u128 = (pot as u128) * (eq_micro as u128);
    let q: u128 = mag * 1000000u128 / den;
    let clamped: u64 = if q > 1000000000000000u128 {
        1000000000000000u64
    } else {
        q as u64
    };
    let signed: i64 = if neg {
        -(clamped as i64)
    } else {
        clamped as i64
    };
    Some(round_tiered(signed))
}

/// Sum of the first `i` weights, in micro-units.
pub open spec fn spec_weight_sum(w: Seq<u64>, i: int) -> int
    decreases i,
{
    if i <= 0 {
        0
    } else {
        spec_weight_sum(w, i - 1) + w[i - 1]
    }
}

/// Sum of the first `i` weighted values, in micro-units squared.
pub open spec fn spec_weighted_value_sum(v: Seq<i64>, w: Seq<u64>, i: int) -> int
    decreases i,
{
    if i <= 0 {
        0
    } else {
        spec_weighted_value_sum(v, w, i - 1) + v[i - 1] * w[i - 1]
    }
}

/// Signed division truncating toward zero; the divisor is positive.
pub open spec fn spec_div_trunc(a: int, b: int) -> int {
    if a >= 0 {
        a / b
    } else {
        -((-a) / b)
    }
}

/// The weighted average of paired value and weight vectors, in micro-units:
/// the weighted value sum over the weight sum, truncated toward zero.
pub open spec fn spec_weighted_average(v: Seq<i64>, w: Seq<u64>) -> int {
    spec_div_trunc(spec_weighted_value_sum(v, w, v.len() as int), spec_weight_sum(w, w.len() as int))
}

/// The weight sum is nonnegative.
proof fn lemma_weight_sum_nonneg(w: Seq<u64>, i: int)
    requires
        i <= w.len(),
    ensures
        spec_weight_sum(w, i) >= 0,
    decreases i,
{
    if i > 0 {
        lemma_weight_sum_nonneg(w, i - 1);
    }
}

/// The weighted value sum is bounded by the bound on values times the
/// weight sum.
proof fn lemma_weighted_sum_bound(v: Seq<i64>, w: Seq<u64>, i: int, c: int)
    requires
        0 <= i <= v.len(),
        i <= w.len(),
        c >= 0,
        forall|k: int| 0 <= k < i ==> -c <= #[trigger] v[k] <= c,
    ensures
        -c * spec_weight_sum(w, i) <= spec_weighted_value_sum(v, w, i) <= c * spec_weight_sum(
            w,
            i,
        ),
    decreases i,
{
    if i > 0 {
        lemma_weighted_sum_bound(v, w, i - 1, c);
        lemma_weight_sum_nonneg(w, i - 1);
        assert(-c * (w[i - 1] as int) <= v[i - 1] * (w[i - 1] as int) <= c * (w[i - 1] as int))
            by (nonlinear_arith)
            requires
                -c <= v[i - 1] <= c,
                w[i - 1] >= 0,
        ;
        assert(c * spec_weight_sum(w, i) == c * spec_weight_sum(w, i - 1) + c * (w[i - 1] as int))
            by (nonlinear_arith)
            requires
                spec_weight_sum(w, i) == spec_weight_sum(w, i - 1) + w[i - 1],
        ;
        assert(-c * spec_weight_sum(w, i) == -c * spec_weight_sum(w, i - 1) + -c * (w[i
            - 1] as int)) by (nonlinear_arith)
            requires
                spec_weight_sum(w, i) == spec_weight_sum(w, i - 1) + w[i - 1],
        ;
    }
}

/// The weighted average of one slice `values[lo..hi]` against a weight
/// vector: used for per-action strategy summaries over a flattened strategy
/// matrix.
pub fn weighted_average_range(values: &Vec<i64>, lo: usize, hi: usize, weights: &Vec<u64>) -> (r:
    Option<i64>)
    requires
        lo <= hi <= values@.len(),
        hi - lo == weights@.len(),
        weights@.len() <= 100000,
        forall|k: int|
            0 <= k < values@.len() ==> -1000000000000 <= #[trigger] values@[k] <= 1000000000000,
        forall|k: int| 0 <= k < weights@.len() ==> #[trigger] weights@[k] <= 1000000,
    ensures
        r is None <==> spec_weight_sum(weights@, weights@.len() as int) == 0,
        match r {
            Some(x) => x == spec_weighted_average(
                values@.subrange(lo as int, hi as int),
                weights@,
            ) && -1000000000000 <= x <= 1000000000000,
            None => true,
        },
{
    let mut part: Vec<i64> = Vec::new();
    let mut i: usize = lo;
    while i < hi
        invariant
            lo <= i <= hi <= values@.len(),
            part@ =~= values@.subrange(lo as int, i as int),
        decreases hi - i,
    {
        part.push(values[i]);
        proof {
            assert(part@ =~= values@.subrange(lo as int, i + 1));
        }
        i = i + 1;
    }
    weighted_average(&part, weights)
}

/// The weighted average of paired vectors of equal length; `None` when the
/// weights sum to zero, for there is then nothing to average over.
pub fn weighted_average(values: &Vec<i64>, weights: &Vec<u64>) -> (r: Option<i64>)
    requires
        values@.len() == weights@.len(),
        values@.len() <= 100000,
        forall|k: int|
            0 <= k < values@.len() ==> -1000000000000 <= #[trigger] values@[k] <= 1000000000000,
        forall|k: int| 0 <= k < weights@.len() ==> #[trigger] weights@[k] <= 1000000,
    ensures
        r is None <==> spec_weight_sum(weights@, weights@.len() as int) == 0,
        match r {
            Some(x) => x == spec_weighted_average(values@, weights@) && -1000000000000 <= x
                <= 1000000000000,
            None => true,
        },
{
    let n = values.len();
    let mut acc: i128 = 0;
    let mut wsum: u64 = 0;
    let mut i: usize = 0;
    while i < n
        invariant
            i <= n,
            n == values@.len() == weights@.len(),
            n <= 100000,
            forall|k: int|
                0 <= k < values@.len() ==> -1000000000000 <= #[trigger] values@[k]
                    <= 1000000000000,
            forall|k: int| 0 <= k < weights@.len() ==> #[trigger] weights@[k] <= 1000000,
            acc == spec_weighted_value_sum(values@, weights@, i as int),
            wsum == spec_weight_sum(weights@, i as int),
            wsum <= i * 1000000,
            -1000000000000 * (wsum as int) <= acc <= 1000000000000 * (wsum as int),
        decreases n - i,
    {
        proof {
            lemma_weighted_sum_bound(values@, weights@, i as int + 1, 1000000000000);
            assert(values@[i as int] * (weights@[i as int] as int) <= 1000000000000 * 1000000)
                by (nonlinear_arith)
                requires
                    -1000000000000 <= values@[i as int] <= 1000000000000,
                    0 <= weights@[i as int] <= 1000000,
            ;
            assert(values@[i as int] * (weights@[i as int] as int) >= -1000000000000 * 1000000)
                by (nonlinear_arith)
                requires
                    -1000000000000 <= values@[i as int] <= 1000000000000,
                    0 <= weights@[i as int] <= 1000000,
            ;
        }
        acc = acc + (values[i] as i128) * (weights[i] as i128);
        wsum = wsum + weights[i];
        i = i + 1;
    }
    if wsum == 0 {
        return None;
    }
    let neg = acc < 0;
    let mag: u128 = if neg {
        (-acc) as u128
    } else {
        acc as u128
    };
    let q: u128 = mag / (wsum as u128);
    proof {
        let a = acc as int;
        let ws = wsum as int;
        assert(a / ws <= 1000000000000) by (nonlinear_arith)
            requires
                ws >= 1,
                a <= 1000000000000 * ws,
        ;
        assert((-a) / ws <= 1000000000000) by (nonlinear_arith)
            requires
                ws >= 1,
                -a <= 1000000000000 * ws,
        ;
    }
    let signed: i64 = if neg {
        -(q as i64)
    } else {
        q as i64
    };
    Some(signed)
}

} // verus!
