//! Per-player starting-hand ranges.
//!
//! A range is a 13x13 grid of weights: the diagonal holds pocket pairs, cells
//! above the diagonal suited combos, cells below it offsuit combos.  Weights
//! are fixed-point micro-units in `[0, WEIGHT_SCALE]`, where `WEIGHT_SCALE`
//! stands for 1.0.
//!
//! The grid is stored row-major by display coordinates.  The rank convention
//! is asymmetric on purpose, mirroring the write and read paths of the
//! backend it models: *setters* take one-based ranks (1 = deuce, 13 = ace),
//! computed from a grid coordinate as `13 - coordinate`, while *getters* take
//! zero-based ranks (0 = deuce, 12 = ace), computed as `12 - coordinate`.
//! Both paths land on the same grid cell.

use vstd::prelude::*;

verus! {

/// Fixed-point weight standing for 1.0.
pub const WEIGHT_SCALE: u32 = 1000000u32;

/// Number of cells in the 13x13 grid.
pub const GRID_CELLS: usize = 169usize;

/// Number of players a session holds ranges for: two analyzed players plus
/// up to four auxiliary opponents for multi-way blocker modeling.
pub const NUM_PLAYERS: usize = 6usize;

/// Grid cell of a pocket pair, from its zero-based rank.
pub open spec fn spec_pair_cell(rank0: int) -> int {
    (12 - rank0) * 13 + (12 - rank0)
}

/// Grid cell of a suited class, from its zero-based ranks (`hi0 > lo0`):
/// above the diagonal.
pub open spec fn spec_suited_cell(hi0: int, lo0: int) -> int {
    (12 - hi0) * 13 + (12 - lo0)
}

/// Grid cell of an offsuit class, from its zero-based ranks (`hi0 > lo0`):
/// below the diagonal.
pub open spec fn spec_offsuit_cell(hi0: int, lo0: int) -> int {
    (12 - lo0) * 13 + (12 - hi0)
}

/// The grid cell the write path reaches from a grid coordinate: ranks are
/// taken one-based as `13 - coordinate` and dispatched by comparing row and
/// column.
pub open spec fn spec_write_cell(row: int, col: int) -> int {
    let rank1 = 13 - row;
    let rank2 = 13 - col;
    if row == col {
        spec_pair_cell(rank1 - 1)
    } else if row < col {
        spec_suited_cell(rank1 - 1, rank2 - 1)
    } else {
        spec_offsuit_cell(rank2 - 1, rank1 - 1)
    }
}

/// The grid cell the read path reaches from a grid coordinate: ranks are
/// taken zero-based as `12 - coordinate`.
pub open spec fn spec_read_cell(row: int, col: int) -> int {
    let rank1 = 12 - row;
    let rank2 = 12 - col;
    if row == col {
        spec_pair_cell(rank1)
    } else if row < col {
        spec_suited_cell(rank1, rank2)
    } else {
        spec_offsuit_cell(rank2, rank1)
    }
}

/// The write convention (one-based ranks) and the read convention
/// (zero-based ranks) designate the same grid cell, which is the row-major
/// cell of the coordinate itself.
pub proof fn lemma_rank_conventions_agree(row: int, col: int)
    requires
        0 <= row <= 12,
        0 <= col <= 12,
    ensures
        spec_write_cell(row, col) == row * 13 + col,
        spec_read_cell(row, col) == row * 13 + col,
{
}

/// Number of distinct card combos a grid cell stands for.
pub open spec fn spec_mult(cell: int) -> int {
    let row = cell / 13;
    let col = cell % 13;
    if row == col {
        6
    } else if row < col {
        4
    } else {
        12
    }
}

/// Sum of combo-weighted cell weights from cell `i` on, in micro-combos.
pub open spec fn spec_combo_sum(s: Seq<u32>, i: int) -> int
    decreases s.len() - i,
{
    if i < 0 || i >= s.len() {
        0
    } else {
        s[i] * spec_mult(i) + spec_combo_sum(s, i + 1)
    }
}

/// Total weighted combo count of a grid, in micro-combos: `WEIGHT_SCALE`
/// units stand for one full combo.
pub open spec fn spec_num_combos(s: Seq<u32>) -> int {
    spec_combo_sum(s, 0)
}

/// Whether a weight grid is well-formed: 169 cells, each within scale.
pub open spec fn grid_wf(s: Seq<u32>) -> bool {
    s.len() == 169 && forall|i: int| 0 <= i < s.len() ==> #[trigger] s[i] <= WEIGHT_SCALE
}

/// The elementwise inversion of a grid: each weight `w` becomes `1 - w`.
pub open spec fn spec_invert(s: Seq<u32>) -> Seq<u32> {
    Seq::new(s.len(), |i: int| (WEIGHT_SCALE - s[i]) as u32)
}

/// Inversion is involutive on well-formed grids.
pub proof fn lemma_invert_involutive(s: Seq<u32>)
    requires
        grid_wf(s),
    ensures
        spec_invert(spec_invert(s)) == s,
{
    assert(spec_invert(spec_invert(s)) =~= s);
}

/// The combo count of a suffix of zero cells is zero.
proof fn lemma_combo_sum_zero(s: Seq<u32>, i: int)
    requires
        forall|k: int| 0 <= k < s.len() ==> #[trigger] s[k] == 0,
    ensures
        spec_combo_sum(s, i) == 0,
    decreases s.len() - i,
{
    if 0 <= i < s.len() {
        lemma_combo_sum_zero(s, i + 1);
    }
}

/// An all-zero grid holds zero combos.
pub proof fn lemma_clear_num_combos(s: Seq<u32>)
    requires
        forall|k: int| 0 <= k < s.len() ==> #[trigger] s[k] == 0,
    ensures
        spec_num_combos(s) == 0,
{
    lemma_combo_sum_zero(s, 0);
}

/// Bounds on a combo-sum suffix of a well-formed grid.
proof fn lemma_combo_sum_bounds(s: Seq<u32>, i: int)
    requires
        grid_wf(s),
        0 <= i <= s.len(),
    ensures
        0 <= spec_combo_sum(s, i) <= (s.len() - i) * 12 * WEIGHT_SCALE,
    decreases s.len() - i,
{
    if i < s.len() {
        lemma_combo_sum_bounds(s, i + 1);
        assert(spec_mult(i) == 6 || spec_mult(i) == 4 || spec_mult(i) == 12);
        assert(s[i] * spec_mult(i) <= 12 * WEIGHT_SCALE) by (nonlinear_arith)
            requires
                s[i] <= WEIGHT_SCALE,
                spec_mult(i) == 6 || spec_mult(i) == 4 || spec_mult(i) == 12,
        ;
        assert(s[i] * spec_mult(i) >= 0) by (nonlinear_arith)
            requires
                s[i] >= 0,
                spec_mult(i) == 6 || spec_mult(i) == 4 || spec_mult(i) == 12,
        ;
    }
}

/// One player's starting-hand weight grid.
pub struct RangeGrid {
    cells: Vec<u32>,
}

impl View for RangeGrid {
    type V = Seq<u32>;

    closed spec fn view(&self) -> Seq<u32> {
        self.cells@
    }
}

impl RangeGrid {
    /// Whether the grid is well-formed.
    pub open spec fn wf(&self) -> bool {
        grid_wf(self@)
    }

    /// A fresh all-zero range.
    pub fn new() -> (r: RangeGrid)
        ensures
            r.wf(),
            r@.len() == 169,
            forall|i: int| 0 <= i < r@.len() ==> #[trigger] r@[i] == 0,
    {
        let mut cells: Vec<u32> = Vec::new();
        let mut i: usize = 0;
        while i < GRID_CELLS
            invariant
                cells@.len() == i,
                i <= 169,
                forall|k: int| 0 <= k < i ==> #[trigger] cells@[k] == 0,
            decreases 169 - i,
        {
            cells.push(0);
            i = i + 1;
        }
        RangeGrid { cells }
    }

    /// Sets the weight of a pocket pair; the rank is one-based.
    pub fn set_weight_pair(&mut self, rank: u8, weight: u32)
        requires
            old(self).wf(),
            1 <= rank <= 13,
            weight <= WEIGHT_SCALE,
        ensures
            final(self).wf(),
            final(self)@ == old(self)@.update(spec_pair_cell(rank - 1), weight),
    {
        let cell: usize = (13 - rank as usize) * 13 + (13 - rank as usize);
        self.cells.set(cell, weight);
    }

    /// Sets the weight of a suited class; ranks are one-based and distinct.
    pub fn set_weight_suited(&mut self, rank1: u8, rank2: u8, weight: u32)
        requires
            old(self).wf(),
            1 <= rank1 <= 13,
            1 <= rank2 <= 13,
            rank1 != rank2,
            weight <= WEIGHT_SCALE,
        ensures
            final(self).wf(),
            final(self)@ == old(self)@.update(
                spec_suited_cell(
                    if rank1 >= rank2 { rank1 - 1 } else { rank2 - 1 },
                    if rank1 >= rank2 { rank2 - 1 } else { rank1 - 1 },
                ),
                weight,
            ),
    {
        let hi: usize = if rank1 >= rank2 { rank1 as usize } else { rank2 as usize };
        let lo: usize = if rank1 >= rank2 { rank2 as usize } else { rank1 as usize };
        let cell: usize = (13 - hi) * 13 + (13 - lo);
        self.cells.set(cell, weight);
    }

    /// Sets the weight of an offsuit class; ranks are one-based and distinct.
    pub fn set_weight_offsuit(&mut self, rank1: u8, rank2: u8, weight: u32)
        requires
            old(self).wf(),
            1 <= rank1 <= 13,
            1 <= rank2 <= 13,
            rank1 != rank2,
            weight <= WEIGHT_SCALE,
        ensures
            final(self).wf(),
            final(self)@ == old(self)@.update(
                spec_offsuit_cell(
                    if rank1 >= rank2 { rank1 - 1 } else { rank2 - 1 },
                    if rank1 >= rank2 { rank2 - 1 } else { rank1 - 1 },
                ),
                weight,
            ),
    {
        let hi: usize = if rank1 >= rank2 { rank1 as usize } else { rank2 as usize };
        let lo: usize = if rank1 >= rank2 { rank2 as usize } else { rank1 as usize };
        let cell: usize = (13 - lo) * 13 + (13 - hi);
        self.cells.set(cell, weight);
    }

    /// Reads the weight of a pocket pair; the rank is zero-based.
    pub fn get_weight_pair(&self, rank: u8) -> (w: u32)
        requires
            self.wf(),
            rank <= 12,
        ensures
            w == self@[spec_pair_cell(rank as int)],
    {
        self.cells[(12 - rank as usize) * 13 + (12 - rank as usize)]
    }

    /// Reads the weight of a suited class; ranks are zero-based and distinct.
    pub fn get_weight_suited(&self, rank1: u8, rank2: u8) -> (w: u32)
        requires
            self.wf(),
            rank1 <= 12,
            rank2 <= 12,
            rank1 != rank2,
        ensures
            w == self@[spec_suited_cell(
                if rank1 >= rank2 { rank1 as int } else { rank2 as int },
                if rank1 >= rank2 { rank2 as int } else { rank1 as int },
            )],
    {
        let hi: usize = if rank1 >= rank2 { rank1 as usize } else { rank2 as usize };
        let lo: usize = if rank1 >= rank2 { rank2 as usize } else { rank1 as usize };
        self.cells[(12 - hi) * 13 + (12 - lo)]
    }

    /// Reads the weight of an offsuit class; ranks are zero-based and
    /// distinct.
    pub fn get_weight_offsuit(&self, rank1: u8, rank2: u8) -> (w: u32)
        requires
            self.wf(),
            rank1 <= 12,
            rank2 <= 12,
            rank1 != rank2,
        ensures
            w == self@[spec_offsuit_cell(
                if rank1 >= rank2 { rank1 as int } else { rank2 as int },
                if rank1 >= rank2 { rank2 as int } else { rank1 as int },
            )],
    {
        let hi: usize = if rank1 >= rank2 { rank1 as usize } else { rank2 as usize };
        let lo: usize = if rank1 >= rank2 { rank2 as usize } else { rank1 as usize };
        self.cells[(12 - lo) * 13 + (12 - hi)]
    }

    /// Writes one grid cell through the write-path rank convention.
    pub fn update(&mut self, row: u8, col: u8, weight: u32)
        requires
            old(self).wf(),
            row <= 12,
            col <= 12,
            weight <= WEIGHT_SCALE,
        ensures
            final(self).wf(),
            final(self)@ == old(self)@.update(spec_write_cell(row as int, col as int), weight),
            final(self)@ == old(self)@.update(row as int * 13 + col as int, weight),
    {
        proof {
            lemma_rank_conventions_agree(row as int, col as int);
        }
        let rank1: u8 = 13 - row;
        let rank2: u8 = 13 - col;
        if row == col {
            self.set_weight_pair(rank1, weight);
        } else if row < col {
            self.set_weight_suited(rank1, rank2, weight);
        } else {
            self.set_weight_offsuit(rank2, rank1, weight);
        }
    }

    /// Zeroes every cell.
    pub fn clear(&mut self)
        requires
            old(self).wf(),
        ensures
            final(self).wf(),
            final(self)@.len() == old(self)@.len(),
            forall|i: int| 0 <= i < final(self)@.len() ==> #[trigger] final(self)@[i] == 0,
            spec_num_combos(final(self)@) == 0,
    {
        let n = self.cells.len();
        let mut i: usize = 0;
        while i < n
            invariant
                self.cells@.len() == n,
                i <= n,
                forall|k: int| 0 <= k < i ==> #[trigger] self.cells@[k] == 0,
                forall|k: int| 0 <= k < n ==> #[trigger] self.cells@[k] <= WEIGHT_SCALE,
            decreases n - i,
        {
            self.cells.set(i, 0);
            i = i + 1;
        }
        proof {
            lemma_clear_num_combos(self@);
        }
    }

    /// Replaces every weight `w` by `1 - w`.
    pub fn invert(&mut self)
        requires
            old(self).wf(),
        ensures
            final(self).wf(),
            final(self)@ == spec_invert(old(self)@),
    {
        let n = self.cells.len();
        let mut i: usize = 0;
        while i < n
            invariant
                self.cells@.len() == n,
                i <= n,
                forall|k: int| 0 <= k < n ==> #[trigger] self.cells@[k] <= WEIGHT_SCALE,
                forall|k: int| i <= k < n ==> #[trigger] self.cells@[k] == old(self)@[k],
                forall|k: int|
                    0 <= k < i ==> #[trigger] self.cells@[k] == (WEIGHT_SCALE - old(self)@[k])
                        as u32,
            decreases n - i,
        {
            let w = self.cells[i];
            self.cells.set(i, WEIGHT_SCALE - w);
            i = i + 1;
        }
        proof {
            assert(self@ =~= spec_invert(old(self)@));
        }
    }

    /// Total weighted combo count, in micro-combos.
    pub fn num_combos(&self) -> (r: u64)
        requires
            self.wf(),
        ensures
            r == spec_num_combos(self@),
    {
        let n = self.cells.len();
        let mut acc: u64 = 0;
        let mut i: usize = 0;
        proof {
            lemma_combo_sum_bounds(self@, 0);
        }
        while i < n
            invariant
                self.wf(),
                n == self@.len(),
                i <= n,
                acc + spec_combo_sum(self@, i as int) == spec_num_combos(self@),
                0 <= spec_num_combos(self@) <= 169 * 12 * WEIGHT_SCALE,
                acc <= 169 * 12 * WEIGHT_SCALE,
            decreases n - i,
        {
            let row = i / 13;
            let col = i % 13;
            let m: u64 = if row == col {
                6
            } else if row < col {
                4
            } else {
                12
            };
            proof {
                assert(m == spec_mult(i as int));
                lemma_combo_sum_bounds(self@, i as int);
                lemma_combo_sum_bounds(self@, i as int + 1);
                assert(self@[i as int] * spec_mult(i as int) <= 12 * WEIGHT_SCALE)
                    by (nonlinear_arith)
                    requires
                        self@[i as int] <= WEIGHT_SCALE,
                        spec_mult(i as int) == 6 || spec_mult(i as int) == 4 || spec_mult(
                            i as int,
                        ) == 12,
                ;
            }
            acc = acc + (self.cells[i] as u64) * m;
            i = i + 1;
        }
        acc
    }

    /// The triangular number of `n`: how many card pairs `(c1, c2)` with
    /// `c1 < c2 < n` exist.
    pub open spec fn tri(n: int) -> int
        decreases n,
    {
        if n <= 0 {
            0
        } else {
            Self::tri(n - 1) + (n - 1)
        }
    }

    /// Position of the combo `(c1, c2)` in the raw per-combo vector, which
    /// enumerates pairs with `c1 < c2` ordered by `c2`, then `c1`.
    pub open spec fn spec_combo_index(c1: int, c2: int) -> int {
        Self::tri(c2) + c1
    }

    /// Triangular numbers grow with their argument.
    pub proof fn lemma_tri_monotone(m: int, n: int)
        requires
            0 <= m <= n,
        ensures
            Self::tri(m) <= Self::tri(n),
        decreases n,
    {
        if m < n {
            Self::lemma_tri_monotone(m, n - 1);
        }
    }

    /// Combo positions are in range: the combos of second card `b` sit
    /// between `tri(b)` and `tri(b + 1)`.
    pub proof fn lemma_combo_index_bound(a: int, b: int, n: int)
        requires
            0 <= a < b < n,
        ensures
            0 <= Self::spec_combo_index(a, b) < Self::tri(n),
            Self::spec_combo_index(a, b) < Self::tri(b) + b,
    {
        assert(Self::tri(b) >= 0) by {
            Self::lemma_tri_monotone(0, b);
        }
        assert(Self::tri(b + 1) == Self::tri(b) + b);
        Self::lemma_tri_monotone(b + 1, n);
    }

    /// The grid cell a concrete combo belongs to.  A card is `4 * rank +
    /// suit` with zero-based ranks.
    pub open spec fn spec_combo_cell(c1: int, c2: int) -> int {
        let r1 = c1 / 4;
        let r2 = c2 / 4;
        if r1 == r2 {
            spec_pair_cell(r1)
        } else {
            let hi = if r1 > r2 {
                r1
            } else {
                r2
            };
            let lo = if r1 > r2 {
                r2
            } else {
                r1
            };
            if c1 % 4 == c2 % 4 {
                spec_suited_cell(hi, lo)
            } else {
                spec_offsuit_cell(hi, lo)
            }
        }
    }

    /// The flat per-combo weight vector: entry `spec_combo_index(c1, c2)`
    /// holds the weight of the grid cell that combo belongs to.
    pub fn raw_data(&self) -> (r: Vec<u32>)
        requires
            self.wf(),
        ensures
            r@.len() == Self::tri(52),
            forall|c1: int, c2: int|
                0 <= c1 < c2 < 52 ==> #[trigger] r@[Self::spec_combo_index(c1, c2)]
                    == self@[Self::spec_combo_cell(c1, c2)],
    {
        let mut out: Vec<u32> = Vec::new();
        let mut c2: usize = 1;
        proof {
            assert(Self::tri(0) == 0);
            assert(Self::tri(1) == 0);
        }
        while c2 < 52
            invariant
                self.wf(),
                1 <= c2 <= 52,
                out@.len() == Self::tri(c2 as int),
                forall|a: int, b: int|
                    0 <= a < b < c2 ==> #[trigger] out@[Self::spec_combo_index(a, b)]
                        == self@[Self::spec_combo_cell(a, b)],
            decreases 52 - c2,
        {
            let mut c1: usize = 0;
            while c1 < c2
                invariant
                    self.wf(),
                    1 <= c2 < 52,
                    0 <= c1 <= c2,
                    out@.len() == Self::tri(c2 as int) + c1,
                    forall|a: int, b: int|
                        0 <= a < b < c2 ==> #[trigger] out@[Self::spec_combo_index(a, b)]
                            == self@[Self::spec_combo_cell(a, b)],
                    forall|a: int|
                        0 <= a < c1 ==> #[trigger] out@[Self::spec_combo_index(a, c2 as int)]
                            == self@[Self::spec_combo_cell(a, c2 as int)],
                decreases c2 - c1,
            {
                let r1 = c1 / 4;
                let r2 = c2 / 4;
                let cell: usize = if r1 == r2 {
                    (12 - r1) * 13 + (12 - r1)
                } else {
                    let hi = if r1 > r2 {
                        r1
                    } else {
                        r2
                    };
                    let lo = if r1 > r2 {
                        r2
                    } else {
                        r1
                    };
                    if c1 % 4 == c2 % 4 {
                        (12 - hi) * 13 + (12 - lo)
                    } else {
                        (12 - lo) * 13 + (12 - hi)
                    }
                };
                proof {
                    assert(cell == Self::spec_combo_cell(c1 as int, c2 as int));
                }
                out.push(self.cells[cell]);
                proof {
                    assert forall|a: int, b: int| 0 <= a < b < c2 implies #[trigger] out@[
                        Self::spec_combo_index(a, b)] == self@[Self::spec_combo_cell(a, b)] by {
                        Self::lemma_combo_index_bound(a, b, c2 as int);
                    }
                    assert forall|a: int| 0 <= a < c1 + 1 implies #[trigger] out@[
                        Self::spec_combo_index(a, c2 as int)] == self@[Self::spec_combo_cell(
                        a,
                        c2 as int,
                    )] by {
                        Self::lemma_tri_monotone(0, c2 as int);
                        assert(0 <= Self::tri(c2 as int) + a < out@.len());
                    }
                }
                c1 = c1 + 1;
            }
            c2 = c2 + 1;
        }
        proof {
            assert forall|a: int, b: int| 0 <= a < b < 52 implies #[trigger] out@[
                Self::spec_combo_index(a, b)] == self@[Self::spec_combo_cell(a, b)] by {
                Self::lemma_combo_index_bound(a, b, 52);
            }
        }
        out
    }

    /// Writes one grid cell by its row-major index.
    pub fn set_cell(&mut self, i: usize, w: u32)
        requires
            old(self).wf(),
            i < 169,
            w <= WEIGHT_SCALE,
        ensures
            final(self).wf(),
            final(self)@ == old(self)@.update(i as int, w),
    {
        self.cells.set(i, w);
    }

    /// Reads one grid cell.
    pub fn cell(&self, i: usize) -> (w: u32)
        requires
            self.wf(),
            i < 169,
        ensures
            w == self@[i as int],
    {
        self.cells[i]
    }

    /// The grid cell of a concrete combo, executably.
    pub fn combo_cell(c1: usize, c2: usize) -> (r: usize)
        requires
            c1 < c2 < 52,
        ensures
            r as int == Self::spec_combo_cell(c1 as int, c2 as int),
            r < 169,
    {
        let r1 = c1 / 4;
        let r2 = c2 / 4;
        if r1 == r2 {
            (12 - r1) * 13 + (12 - r1)
        } else {
            let hi = if r1 > r2 {
                r1
            } else {
                r2
            };
            let lo = if r1 > r2 {
                r2
            } else {
                r1
            };
            if c1 % 4 == c2 % 4 {
                (12 - hi) * 13 + (12 - lo)
            } else {
                (12 - lo) * 13 + (12 - hi)
            }
        }
    }

    /// The 169 weights, row-major by grid coordinates.
    pub fn weights_grid(&self) -> (r: Vec<u32>)
        requires
            self.wf(),
        ensures
            r@ == self@,
    {
        let n = self.cells.len();
        let mut out: Vec<u32> = Vec::new();
        let mut i: usize = 0;
        while i < n
            invariant
                n == self@.len(),
                i <= n,
                out@ =~= self@.take(i as int),
            decreases n - i,
        {
            out.push(self.cells[i]);
            proof {
                assert(out@ =~= self@.take(i + 1));
            }
            i = i + 1;
        }
        proof {
            assert(self@.take(n as int) =~= self@);
        }
        out
    }
}

/// The per-session range store: one grid per player.  Players 0 and 1 are
/// the analyzed pair; players 2 to 5 are auxiliary opponents for the
/// bunching model.
pub struct RangeManager {
    grids: Vec<RangeGrid>,
}

impl RangeManager {
    /// The weight grid of one player.
    pub closed spec fn grid(&self, player: int) -> Seq<u32> {
        self.grids@[player]@
    }

    /// Whether the store is well-formed: six well-formed grids.
    pub closed spec fn wf(&self) -> bool {
        self.grids@.len() == 6 && forall|p: int| 0 <= p < 6 ==> (#[trigger] self.grids@[p]).wf()
    }

    /// Exposes well-formedness of a single grid.
    pub proof fn lemma_grid_wf(&self, player: int)
        requires
            self.wf(),
            0 <= player < 6,
        ensures
            grid_wf(self.grid(player)),
    {
    }

    /// A fresh store with all-zero ranges.
    pub fn new() -> (r: RangeManager)
        ensures
            r.wf(),
            forall|p: int, i: int| 0 <= p < 6 && 0 <= i < 169 ==> #[trigger] r.grid(p)[i] == 0,
    {
        let mut grids: Vec<RangeGrid> = Vec::new();
        let mut p: usize = 0;
        while p < NUM_PLAYERS
            invariant
                grids@.len() == p,
                p <= 6,
                forall|q: int| 0 <= q < p ==> (#[trigger] grids@[q]).wf(),
                forall|q: int, i: int|
                    0 <= q < p && 0 <= i < 169 ==> #[trigger] grids@[q]@[i] == 0,
            decreases 6 - p,
        {
            grids.push(RangeGrid::new());
            p = p + 1;
        }
        RangeManager { grids }
    }

    /// Shared access to one player's grid.
    pub fn player_grid(&self, player: usize) -> (g: &RangeGrid)
        requires
            self.wf(),
            player < 6,
        ensures
            g@ == self.grid(player as int),
            g.wf(),
    {
        &self.grids[player]
    }
}

/// Total weighted combo count of one player's range, in micro-combos.
pub fn range_num_combos(rm: &RangeManager, player: usize) -> (r: u64)
    requires
        rm.wf(),
        player < 6,
    ensures
        r == spec_num_combos(rm.grid(player as int)),
{
    rm.grids[player].num_combos()
}

/// Zeroes one player's range; the other players keep theirs.
pub fn range_clear(rm: &mut RangeManager, player: usize)
    requires
        old(rm).wf(),
        player < 6,
    ensures
        final(rm).wf(),
        forall|i: int|
            0 <= i < final(rm).grid(player as int).len() ==> #[trigger] final(rm).grid(
                player as int,
            )[i] == 0,
        spec_num_combos(final(rm).grid(player as int)) == 0,
        forall|q: int| 0 <= q < 6 && q != player ==> final(rm).grid(q) == #[trigger] old(rm).grid(q),
{
    let mut g = self_take_grid(rm, player);
    g.clear();
    self_put_grid(rm, player, g);
}

/// Inverts one player's range elementwise; the other players keep theirs.
pub fn range_invert(rm: &mut RangeManager, player: usize)
    requires
        old(rm).wf(),
        player < 6,
    ensures
        final(rm).wf(),
        final(rm).grid(player as int) == spec_invert(old(rm).grid(player as int)),
        forall|q: int| 0 <= q < 6 && q != player ==> final(rm).grid(q) == #[trigger] old(rm).grid(q),
{
    let mut g = self_take_grid(rm, player);
    g.invert();
    self_put_grid(rm, player, g);
}

/// Writes one grid cell of one player's range through the write-path rank
/// convention; the other players keep theirs.
pub fn range_update(rm: &mut RangeManager, player: usize, row: u8, col: u8, weight: u32)
    requires
        old(rm).wf(),
        player < 6,
        row <= 12,
        col <= 12,
        weight <= WEIGHT_SCALE,
    ensures
        final(rm).wf(),
        final(rm).grid(player as int) == old(rm).grid(player as int).update(
            spec_write_cell(row as int, col as int),
            weight,
        ),
        final(rm).grid(player as int) == old(rm).grid(player as int).update(
            row as int * 13 + col as int,
            weight,
        ),
        forall|q: int| 0 <= q < 6 && q != player ==> final(rm).grid(q) == #[trigger] old(rm).grid(q),
{
    let mut g = self_take_grid(rm, player);
    g.update(row, col, weight);
    self_put_grid(rm, player, g);
}

/// The 169 weights of one player's range, row-major.
pub fn range_get_weights(rm: &RangeManager, player: usize) -> (r: Vec<u32>)
    requires
        rm.wf(),
        player < 6,
    ensures
        r@ == rm.grid(player as int),
{
    rm.grids[player].weights_grid()
}

/// The flat per-combo weight vector of one player's range.
pub fn range_raw_data(rm: &RangeManager, player: usize) -> (r: Vec<u32>)
    requires
        rm.wf(),
        player < 6,
    ensures
        r@.len() == RangeGrid::tri(52),
        forall|c1: int, c2: int|
            0 <= c1 < c2 < 52 ==> #[trigger] r@[RangeGrid::spec_combo_index(c1, c2)] == rm.grid(
                player as int,
            )[RangeGrid::spec_combo_cell(c1, c2)],
{
    rm.grids[player].raw_data()
}

/// Replaces one player's whole grid; the other players keep theirs.
pub fn range_replace_grid(rm: &mut RangeManager, player: usize, g: RangeGrid)
    requires
        old(rm).wf(),
        player < 6,
        g.wf(),
    ensures
        final(rm).wf(),
        final(rm).grid(player as int) == g@,
        forall|q: int| 0 <= q < 6 && q != player ==> final(rm).grid(q) == #[trigger] old(rm).grid(q),
{
    let _old = self_take_grid(rm, player);
    self_put_grid(rm, player, g);
}

/// Removes one grid from the store for in-place editing.
fn self_take_grid(rm: &mut RangeManager, player: usize) -> (g: RangeGrid)
    requires
        old(rm).wf(),
        player < 6,
    ensures
        g@ == old(rm).grid(player as int),
        g.wf(),
        final(rm).grids@.len() == 5,
        forall|q: int| 0 <= q < 5 ==> (#[trigger] final(rm).grids@[q]).wf(),
        forall|q: int| 0 <= q < player ==> final(rm).grids@[q] == old(rm).grids@[q],
        forall|q: int| player < q < 6 ==> final(rm).grids@[q - 1] == old(rm).grids@[q],
{
    rm.grids.remove(player)
}

/// Puts an edited grid back in the store.
fn self_put_grid(rm: &mut RangeManager, player: usize, g: RangeGrid)
    requires
        old(rm).grids@.len() == 5,
        player <= 5,
        g.wf(),
        forall|q: int| 0 <= q < old(rm).grids@.len() ==> (#[trigger] old(rm).grids@[q]).wf(),
    ensures
        final(rm).wf(),
        final(rm).grid(player as int) == g@,
        forall|q: int| 0 <= q < player ==> final(rm).grids@[q] == old(rm).grids@[q],
        forall|q: int| player < q < 6 ==> final(rm).grids@[q] == old(rm).grids@[q - 1],
{
    rm.grids.insert(player, g);
}

} // verus!
