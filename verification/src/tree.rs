//! The canonical betting-action tree: builder, navigator and editor.
//!
//! A tree node is a decision point of one player, a chance node where the
//! next board card is revealed, or a terminal.  The tree is generated from a
//! [`TreeConfig`] by a deterministic grammar and can afterwards be customized
//! by adding and removing lines.
//!
//! Chip amounts in actions are the total a player has committed *on the
//! current street* after taking the action.  Bet sizes are configured as
//! percentages of the pot; the candidate amount of a size `p` is
//! `pot * p / 100` chips (at least one chip), added on top of the amount to
//! call when raising.  A candidate that reaches the remaining stack becomes
//! an all-in, as does one that leaves at most `force_allin_threshold`
//! per-mille of the pot behind; a candidate within `merging_threshold`
//! per-mille of an already kept amount is dropped; and an explicit all-in is
//! appended when the remaining stack is at most `add_allin_threshold`
//! per-mille of the pot.

use vstd::prelude::*;

use crate::action::Action;

verus! {

/// The flop: the first post-flop street.
pub const STREET_FLOP: u8 = 0u8;

/// The turn.
pub const STREET_TURN: u8 = 1u8;

/// The river: the last street.
pub const STREET_RIVER: u8 = 2u8;

/// Node kind: a player decision.
pub const KIND_DECISION: u8 = 0u8;

/// Node kind: a chance card is dealt.
pub const KIND_CHANCE: u8 = 1u8;

/// Node kind: the hand is over.
pub const KIND_TERMINAL: u8 = 2u8;

/// Largest starting pot the tree accepts, in chips.
pub const MAX_POT: u32 = 100000000u32;

/// Largest effective stack the tree accepts, in chips.
pub const MAX_STACK: u32 = 100000000u32;

/// Largest bet size, in percent of the pot.
pub const MAX_SIZE_PCT: u32 = 10000u32;

/// Largest threshold, in per-mille.
pub const MAX_THRESHOLD: u32 = 100000u32;

/// The street a board prescribes: up to three cards start on the flop, four
/// on the turn, five on the river; anything longer is malformed.
pub fn street_of_board_len(len: usize) -> (r: Option<u8>)
    ensures
        len <= 3 ==> r == Some(STREET_FLOP),
        len == 4 ==> r == Some(STREET_TURN),
        len == 5 ==> r == Some(STREET_RIVER),
        len > 5 ==> r is None,
{
    if len <= 3 {
        Some(STREET_FLOP)
    } else if len == 4 {
        Some(STREET_TURN)
    } else if len == 5 {
        Some(STREET_RIVER)
    } else {
        None
    }
}

/// The value of one size token: the digits of a percentage closed by `%`.
pub open spec fn spec_size_token(t: Seq<u8>) -> Option<u32> {
    if t.len() >= 2 && t.last() == 37u8 && crate::action::all_digits(t.drop_last())
        && crate::action::dec_val(t.drop_last()) <= MAX_SIZE_PCT {
        Some(crate::action::dec_val(t.drop_last()) as u32)
    } else {
        None
    }
}

/// Parses one size token held in `s[lo..hi]`.
fn parse_size_token(s: &Vec<u8>, lo: usize, hi: usize) -> (r: Option<u32>)
    requires
        lo <= hi <= s@.len(),
    ensures
        r == spec_size_token(s@.subrange(lo as int, hi as int)),
{
    let ghost t = s@.subrange(lo as int, hi as int);
    if hi - lo < 2 {
        return None;
    }
    if s[hi - 1] != 37u8 {
        return None;
    }
    proof {
        assert(t.drop_last() =~= s@.subrange(lo as int, hi - 1));
        assert(t.last() == s@[hi - 1]);
    }
    match crate::action::parse_amount(s, lo, hi - 1) {
        Some(v) => if v <= MAX_SIZE_PCT {
            Some(v)
        } else {
            None
        },
        None => None,
    }
}

/// The size list a comma-separated byte string stands for: each entry a
/// percentage of the pot such as `50%`; the empty string is the empty list.
pub open spec fn spec_sizes(s: Seq<u8>, i: int) -> Option<Seq<u32>>
    decreases s.len() - i,
{
    if i < 0 || i >= s.len() {
        Some(Seq::empty())
    } else {
        let sl = crate::line::seg_len(s, i) as int;
        match spec_size_token(s.subrange(i, i + sl)) {
            None => None,
            Some(v) => if i + sl >= s.len() {
                Some(seq![v])
            } else {
                match spec_sizes(s, i + sl + 1) {
                    None => None,
                    Some(r) => Some(seq![v] + r),
                }
            },
        }
    }
}

/// Parses a comma-separated list of pot-percentage bet sizes; `None` on any
/// malformed entry — a fatal construction error for the tree.  This grammar
/// accepts whole-percent entries (`50%`) only: richer sizing specifiers
/// belong to the solve engine's own grammar, which is not part of this
/// library.
pub fn parse_sizes(s: &Vec<u8>) -> (r: Option<Vec<u32>>)
    ensures
        match r {
            Some(v) => spec_sizes(s@, 0) == Some(v@) && (v@.len() <= 32 ==> sizes_wf(v@)),
            None => spec_sizes(s@, 0) is None,
        },
{
    let n = s.len();
    let mut out: Vec<u32> = Vec::new();
    let mut i: usize = 0;
    while i < n
        invariant
            i <= n == s@.len(),
            forall|k: int| 0 <= k < out@.len() ==> #[trigger] out@[k] <= MAX_SIZE_PCT,
            match spec_sizes(s@, i as int) {
                Some(rest) => spec_sizes(s@, 0) == Some(out@ + rest),
                None => spec_sizes(s@, 0) is None,
            },
        decreases n - i,
    {
        let mut j: usize = i;
        while j < n && s[j] != 44u8
            invariant
                i <= j <= n <= s@.len(),
                forall|k: int| i <= k < j ==> #[trigger] s@[k] != 44u8,
            decreases n - j,
        {
            j = j + 1;
        }
        proof {
            if j < n {
                assert(s@[j as int] == 44u8);
            }
            crate::line::lemma_seg_len_eq(s@, i as int, j as int);
        }
        match parse_size_token(s, i, j) {
            None => {
                return None;
            },
            Some(v) => {
                out.push(v);
                if j == n {
                    proof {
                        assert(out@ =~= out@.drop_last() + seq![v]);
                    }
                    return Some(out);
                }
                proof {
                    let r2 = spec_sizes(s@, j + 1);
                    if r2 is Some {
                        assert(out@ + r2.unwrap() =~= out@.drop_last() + (seq![v] + r2.unwrap()));
                    }
                }
            },
        }
        i = j + 1;
    }
    proof {
        assert(out@ + Seq::<u32>::empty() =~= out@);
    }
    Some(out)
}

/// The configuration a tree is generated from.
pub struct TreeConfig {
    /// Street of the root node.
    pub initial_street: u8,
    /// Chips in the pot before any tree action.
    pub starting_pot: u32,
    /// Chips each player can still commit over the whole tree.
    pub effective_stack: u32,
    /// Out-of-position bet sizes per street, percent of pot.
    pub oop_flop_bet: Vec<u32>,
    /// Out-of-position raise sizes on the flop.
    pub oop_flop_raise: Vec<u32>,
    /// Out-of-position bet sizes on the turn.
    pub oop_turn_bet: Vec<u32>,
    /// Out-of-position raise sizes on the turn.
    pub oop_turn_raise: Vec<u32>,
    /// Out-of-position bet sizes on the river.
    pub oop_river_bet: Vec<u32>,
    /// Out-of-position raise sizes on the river.
    pub oop_river_raise: Vec<u32>,
    /// In-position bet sizes on the flop.
    pub ip_flop_bet: Vec<u32>,
    /// In-position raise sizes on the flop.
    pub ip_flop_raise: Vec<u32>,
    /// In-position bet sizes on the turn.
    pub ip_turn_bet: Vec<u32>,
    /// In-position raise sizes on the turn.
    pub ip_turn_raise: Vec<u32>,
    /// In-position bet sizes on the river.
    pub ip_river_bet: Vec<u32>,
    /// In-position raise sizes on the river.
    pub ip_river_raise: Vec<u32>,
    /// Out-of-position donk-bet sizes on the turn, when donk betting is
    /// configured.
    pub oop_turn_donk: Option<Vec<u32>>,
    /// Out-of-position donk-bet sizes on the river.
    pub oop_river_donk: Option<Vec<u32>>,
    /// Append an all-in bet when the remaining stack is at most this many
    /// per-mille of the pot.
    pub add_allin_threshold: u32,
    /// Turn a candidate into an all-in when it would leave at most this many
    /// per-mille of the pot behind.
    pub force_allin_threshold: u32,
    /// Drop a candidate within this many per-mille of a kept amount.
    pub merging_threshold: u32,
}

/// Whether a size list is acceptable.
pub open spec fn sizes_wf(s: Seq<u32>) -> bool {
    s.len() <= 32 && forall|i: int| 0 <= i < s.len() ==> #[trigger] s[i] <= MAX_SIZE_PCT
}

impl TreeConfig {
    /// Whether the configuration is acceptable: street and chip amounts in
    /// range, size lists bounded.
    pub open spec fn wf(&self) -> bool {
        &&& self.initial_street <= STREET_RIVER
        &&& 1 <= self.starting_pot <= MAX_POT
        &&& 1 <= self.effective_stack <= MAX_STACK
        &&& sizes_wf(self.oop_flop_bet@)
        &&& sizes_wf(self.oop_flop_raise@)
        &&& sizes_wf(self.oop_turn_bet@)
        &&& sizes_wf(self.oop_turn_raise@)
        &&& sizes_wf(self.oop_river_bet@)
        &&& sizes_wf(self.oop_river_raise@)
        &&& sizes_wf(self.ip_flop_bet@)
        &&& sizes_wf(self.ip_flop_raise@)
        &&& sizes_wf(self.ip_turn_bet@)
        &&& sizes_wf(self.ip_turn_raise@)
        &&& sizes_wf(self.ip_river_bet@)
        &&& sizes_wf(self.ip_river_raise@)
        &&& match self.oop_turn_donk {
            Some(ref v) => sizes_wf(v@),
            None => true,
        }
        &&& match self.oop_river_donk {
            Some(ref v) => sizes_wf(v@),
            None => true,
        }
        &&& self.add_allin_threshold <= MAX_THRESHOLD
        &&& self.force_allin_threshold <= MAX_THRESHOLD
        &&& self.merging_threshold <= MAX_THRESHOLD
    }

    /// The bet-size list of one seat on one street.
    pub open spec fn spec_bet_sizes(&self, street: u8, player: u8) -> Seq<u32> {
        if player == 0 {
            if street == STREET_FLOP {
                self.oop_flop_bet@
            } else if street == STREET_TURN {
                self.oop_turn_bet@
            } else {
                self.oop_river_bet@
            }
        } else {
            if street == STREET_FLOP {
                self.ip_flop_bet@
            } else if street == STREET_TURN {
                self.ip_turn_bet@
            } else {
                self.ip_river_bet@
            }
        }
    }

    /// The raise-size list of one seat on one street.
    pub open spec fn spec_raise_sizes(&self, street: u8, player: u8) -> Seq<u32> {
        if player == 0 {
            if street == STREET_FLOP {
                self.oop_flop_raise@
            } else if street == STREET_TURN {
                self.oop_turn_raise@
            } else {
                self.oop_river_raise@
            }
        } else {
            if street == STREET_FLOP {
                self.ip_flop_raise@
            } else if street == STREET_TURN {
                self.ip_turn_raise@
            } else {
                self.ip_river_raise@
            }
        }
    }

    /// The list an opening bet draws from: the donk list when the bettor is
    /// out of position facing last street's aggressor and a donk list is
    /// configured, else the plain bet list.
    pub open spec fn spec_open_sizes(&self, street: u8, player: u8, donk: bool) -> Seq<u32> {
        if donk && player == 0 && street == STREET_TURN && self.oop_turn_donk is Some {
            self.oop_turn_donk->Some_0@
        } else if donk && player == 0 && street == STREET_RIVER && self.oop_river_donk is Some {
            self.oop_river_donk->Some_0@
        } else {
            self.spec_bet_sizes(street, player)
        }
    }

    /// Reads the opening-size list chosen by `spec_open_sizes`.
    pub fn open_sizes(&self, street: u8, player: u8, donk: bool) -> (r: &Vec<u32>)
        ensures
            r@ == self.spec_open_sizes(street, player, donk),
    {
        if donk && player == 0 && street == STREET_TURN {
            match self.oop_turn_donk {
                Some(ref v) => {
                    return v;
                },
                None => {},
            }
        }
        if donk && player == 0 && street == STREET_RIVER {
            match self.oop_river_donk {
                Some(ref v) => {
                    return v;
                },
                None => {},
            }
        }
        self.bet_sizes(street, player)
    }

    /// Reads the bet-size list chosen by `spec_bet_sizes`.
    pub fn bet_sizes(&self, street: u8, player: u8) -> (r: &Vec<u32>)
        ensures
            r@ == self.spec_bet_sizes(street, player),
    {
        if player == 0 {
            if street == STREET_FLOP {
                &self.oop_flop_bet
            } else if street == STREET_TURN {
                &self.oop_turn_bet
            } else {
                &self.oop_river_bet
            }
        } else {
            if street == STREET_FLOP {
                &self.ip_flop_bet
            } else if street == STREET_TURN {
                &self.ip_turn_bet
            } else {
                &self.ip_river_bet
            }
        }
    }

    /// Reads the raise-size list chosen by `spec_raise_sizes`.
    pub fn raise_sizes(&self, street: u8, player: u8) -> (r: &Vec<u32>)
        ensures
            r@ == self.spec_raise_sizes(street, player),
    {
        if player == 0 {
            if street == STREET_FLOP {
                &self.oop_flop_raise
            } else if street == STREET_TURN {
                &self.oop_turn_raise
            } else {
                &self.oop_river_raise
            }
        } else {
            if street == STREET_FLOP {
                &self.ip_flop_raise
            } else if street == STREET_TURN {
                &self.ip_turn_raise
            } else {
                &self.ip_river_raise
            }
        }
    }
}

/// The generation state of one node: what the betting looks like when the
/// node is reached.
#[derive(Clone, Copy, PartialEq, Eq, Structural, Debug)]
pub struct BuildState {
    /// Node kind: decision, chance, or terminal.
    pub kind: u8,
    /// Current street.
    pub street: u8,
    /// Whose decision the node is (0 out of position, 1 in position).
    pub to_act: u8,
    /// Chips the out-of-position player has committed this street.
    pub c0: u32,
    /// Chips the in-position player has committed this street.
    pub c1: u32,
    /// Chips each player committed on earlier streets (always equal).
    pub t: u32,
    /// Whether a check has already happened this street.
    pub checked: bool,
    /// Whether the previous street ended with a called bet.
    pub prev_bet: bool,
}

impl BuildState {
    /// Whether the state is reachable under a configuration.
    pub open spec fn wf(&self, cfg: &TreeConfig) -> bool {
        &&& self.kind <= KIND_TERMINAL
        &&& self.street <= STREET_RIVER
        &&& self.to_act <= 1
        &&& self.t <= cfg.effective_stack
        &&& self.c0 <= cfg.effective_stack - self.t
        &&& self.c1 <= cfg.effective_stack - self.t
        &&& (self.kind == KIND_DECISION && self.c0 == self.c1 ==> self.c0 == 0)
        &&& (self.checked ==> self.c0 == 0 && self.c1 == 0)
        &&& (self.kind == KIND_DECISION ==> self.t < cfg.effective_stack)
        &&& (self.kind == KIND_DECISION ==> (if self.to_act == 0 {
            self.c0 <= self.c1
        } else {
            self.c1 <= self.c0
        }))
        &&& (self.kind == KIND_CHANCE ==> self.street < STREET_RIVER && self.c0 == 0 && self.c1
            == 0 && !self.checked)
    }

    /// The root state of a tree.
    pub open spec fn spec_root(cfg: &TreeConfig) -> BuildState {
        BuildState {
            kind: KIND_DECISION,
            street: cfg.initial_street,
            to_act: 0,
            c0: 0,
            c1: 0,
            t: 0,
            checked: false,
            prev_bet: false,
        }
    }

    /// Street commitment of the player to act.
    pub open spec fn my_commit(&self) -> u32 {
        if self.to_act == 0 {
            self.c0
        } else {
            self.c1
        }
    }

    /// Street commitment of the other player.
    pub open spec fn opp_commit(&self) -> u32 {
        if self.to_act == 0 {
            self.c1
        } else {
            self.c0
        }
    }

    /// Chips the players can still commit this street.
    pub open spec fn cap(&self, cfg: &TreeConfig) -> int {
        cfg.effective_stack - self.t
    }

    /// Pot before this street's outstanding commitments.
    pub open spec fn street_pot(&self, cfg: &TreeConfig) -> int {
        cfg.starting_pot + 2 * self.t
    }
}

/// An amount is close enough to a kept action's amount to be merged away:
/// within `thr` per-mille of it.
pub open spec fn spec_merged_away(n: int, kept: Seq<Action>, thr: int) -> bool {
    exists|i: int|
        0 <= i < kept.len() && match #[trigger] kept[i] {
            Action::Bet(m) => (if n >= m { (n - m) * 1000 <= thr * m } else { (m - n) * 1000 <= thr * m }),
            Action::Raise(m) => (if n >= m { (n - m) * 1000 <= thr * m } else { (m - n) * 1000 <= thr * m }),
            Action::AllIn(m) => (if n >= m { (n - m) * 1000 <= thr * m } else { (m - n) * 1000 <= thr * m }),
            _ => false,
        }
}

/// Whether a kept list already holds an all-in.
pub open spec fn spec_has_allin(kept: Seq<Action>) -> bool {
    exists|i: int| 0 <= i < kept.len() && #[trigger] kept[i] is AllIn
}

/// The raw candidate amount of a size `pct`: that share of the pot, at least
/// one chip, on top of the amount already to match.
pub open spec fn spec_candidate_amount(pot: int, pct: int, addon: int) -> int {
    let share = pot * pct / 100;
    addon + (if share < 1 { 1int } else { share })
}

/// The sized candidates of one size list, processed in order: each size
/// yields its amount, clamped into an all-in at or near the stack cap, and
/// is dropped when it merges into an already kept amount.
pub open spec fn spec_candidates(
    sizes: Seq<u32>,
    i: int,
    kept: Seq<Action>,
    pot: int,
    addon: int,
    cap: int,
    raising: bool,
    force_thr: int,
    merge_thr: int,
) -> Seq<Action>
    decreases sizes.len() - i,
{
    if i < 0 || i >= sizes.len() {
        kept
    } else {
        let n = spec_candidate_amount(pot, sizes[i] as int, addon);
        let next_kept = if n >= cap || (cap - n) * 1000 <= force_thr * pot {
            if spec_has_allin(kept) {
                kept
            } else {
                kept.push(Action::AllIn(cap as u32))
            }
        } else if spec_merged_away(n, kept, merge_thr) {
            kept
        } else if raising {
            kept.push(Action::Raise(n as u32))
        } else {
            kept.push(Action::Bet(n as u32))
        };
        spec_candidates(sizes, i + 1, next_kept, pot, addon, cap, raising, force_thr, merge_thr)
    }
}

/// Appends the configured all-in when none is kept yet and the remaining
/// stack is at most `add_thr` per-mille of the pot.
pub open spec fn spec_with_added_allin(
    kept: Seq<Action>,
    pot: int,
    cap: int,
    add_thr: int,
) -> Seq<Action> {
    if !spec_has_allin(kept) && cap * 1000 <= add_thr * pot {
        kept.push(Action::AllIn(cap as u32))
    } else {
        kept
    }
}

/// The available actions at a decision state: the betting grammar.
///
/// With no outstanding bet the player may check or open for any sized
/// candidate; facing a bet the player may fold, call, or — unless the
/// opponent is already all-in — raise by any sized candidate.
pub open spec fn spec_actions(cfg: &TreeConfig, st: BuildState) -> Seq<Action> {
    let cap = st.cap(cfg);
    if st.my_commit() == st.opp_commit() {
        let pot = st.street_pot(cfg);
        let sizes = cfg.spec_open_sizes(st.street, st.to_act, st.prev_bet);
        let bets = spec_candidates(
            sizes,
            0,
            Seq::empty(),
            pot,
            0,
            cap,
            false,
            cfg.force_allin_threshold as int,
            cfg.merging_threshold as int,
        );
        seq![Action::Check] + spec_with_added_allin(bets, pot, cap, cfg.add_allin_threshold as int)
    } else {
        let opp = st.opp_commit() as int;
        let pot = st.street_pot(cfg) + 2 * opp;
        let raises = if opp == cap {
            Seq::empty()
        } else {
            let sizes = cfg.spec_raise_sizes(st.street, st.to_act);
            let rs = spec_candidates(
                sizes,
                0,
                Seq::empty(),
                pot,
                opp,
                cap,
                true,
                cfg.force_allin_threshold as int,
                cfg.merging_threshold as int,
            );
            spec_with_added_allin(rs, pot, cap, cfg.add_allin_threshold as int)
        };
        seq![Action::Fold, Action::Call] + raises
    }
}

/// Every kept candidate is a bet or raise strictly between the amount to
/// match and the stack cap, or exactly the all-in.
pub open spec fn spec_kept_sound(kept: Seq<Action>, addon: int, cap: int, raising: bool) -> bool {
    forall|i: int|
        0 <= i < kept.len() ==> match #[trigger] kept[i] {
            Action::Bet(m) => !raising && addon < m < cap,
            Action::Raise(m) => raising && addon < m < cap,
            Action::AllIn(m) => m == cap,
            _ => false,
        }
}

/// The candidate machinery only keeps sound candidates.
pub proof fn lemma_candidates_sound(
    sizes: Seq<u32>,
    i: int,
    kept: Seq<Action>,
    pot: int,
    addon: int,
    cap: int,
    raising: bool,
    force_thr: int,
    merge_thr: int,
)
    requires
        spec_kept_sound(kept, addon, cap, raising),
        0 <= addon < cap <= MAX_STACK,
        pot >= 1,
    ensures
        spec_kept_sound(
            spec_candidates(sizes, i, kept, pot, addon, cap, raising, force_thr, merge_thr),
            addon,
            cap,
            raising,
        ),
    decreases sizes.len() - i,
{
    if 0 <= i < sizes.len() {
        let n = spec_candidate_amount(pot, sizes[i] as int, addon);
        assert(pot * (sizes[i] as int) / 100 >= 0) by (nonlinear_arith)
            requires
                pot >= 1,
                sizes[i] >= 0,
        ;
        let next_kept = if n >= cap || (cap - n) * 1000 <= force_thr * pot {
            if spec_has_allin(kept) {
                kept
            } else {
                kept.push(Action::AllIn(cap as u32))
            }
        } else if spec_merged_away(n, kept, merge_thr) {
            kept
        } else if raising {
            kept.push(Action::Raise(n as u32))
        } else {
            kept.push(Action::Bet(n as u32))
        };
        assert(spec_kept_sound(next_kept, addon, cap, raising));
        lemma_candidates_sound(
            sizes,
            i + 1,
            next_kept,
            pot,
            addon,
            cap,
            raising,
            force_thr,
            merge_thr,
        );
    }
}

/// What holds of every action the grammar makes available: folds and calls
/// only against a bet, checks only without one, and sized amounts strictly
/// above the amount to match and at most the stack cap.
pub open spec fn spec_action_sound(cfg: &TreeConfig, st: BuildState, a: Action) -> bool {
    match a {
        Action::Check => st.my_commit() == st.opp_commit(),
        Action::Fold => st.my_commit() < st.opp_commit(),
        Action::Call => st.my_commit() < st.opp_commit(),
        Action::Bet(m) => st.my_commit() == st.opp_commit() && st.opp_commit() < m < st.cap(cfg),
        Action::Raise(m) => st.my_commit() < st.opp_commit() && st.opp_commit() < m < st.cap(cfg),
        Action::AllIn(m) => m == st.cap(cfg) && st.opp_commit() < m,
    }
}

/// The candidate machinery adds at most one action per size.
proof fn lemma_candidates_len(
    sizes: Seq<u32>,
    i: int,
    kept: Seq<Action>,
    pot: int,
    addon: int,
    cap: int,
    raising: bool,
    force_thr: int,
    merge_thr: int,
)
    requires
        0 <= i,
    ensures
        spec_candidates(sizes, i, kept, pot, addon, cap, raising, force_thr, merge_thr).len()
            <= kept.len() + (if i < sizes.len() {
            sizes.len() - i
        } else {
            0
        }),
    decreases sizes.len() - i,
{
    if 0 <= i < sizes.len() {
        let n = spec_candidate_amount(pot, sizes[i] as int, addon);
        let next_kept = if n >= cap || (cap - n) * 1000 <= force_thr * pot {
            if spec_has_allin(kept) {
                kept
            } else {
                kept.push(Action::AllIn(cap as u32))
            }
        } else if spec_merged_away(n, kept, merge_thr) {
            kept
        } else if raising {
            kept.push(Action::Raise(n as u32))
        } else {
            kept.push(Action::Bet(n as u32))
        };
        lemma_candidates_len(
            sizes,
            i + 1,
            next_kept,
            pot,
            addon,
            cap,
            raising,
            force_thr,
            merge_thr,
        );
    }
}

/// At most 35 actions are ever available at one decision.
pub proof fn lemma_actions_len(cfg: &TreeConfig, st: BuildState)
    requires
        cfg.wf(),
        st.wf(cfg),
        st.kind == KIND_DECISION,
    ensures
        spec_actions(cfg, st).len() <= 35,
{
    let cap = st.cap(cfg);
    if st.my_commit() == st.opp_commit() {
        let pot = st.street_pot(cfg);
        let sizes = cfg.spec_open_sizes(st.street, st.to_act, st.prev_bet);
        lemma_candidates_len(
            sizes,
            0,
            Seq::empty(),
            pot,
            0,
            cap,
            false,
            cfg.force_allin_threshold as int,
            cfg.merging_threshold as int,
        );
    } else {
        let opp = st.opp_commit() as int;
        let pot = st.street_pot(cfg) + 2 * opp;
        if opp < cap {
            let sizes = cfg.spec_raise_sizes(st.street, st.to_act);
            lemma_candidates_len(
                sizes,
                0,
                Seq::empty(),
                pot,
                opp,
                cap,
                true,
                cfg.force_allin_threshold as int,
                cfg.merging_threshold as int,
            );
        }
    }
}

/// Every action available at a well-formed decision state is lawful there.
pub proof fn lemma_actions_sound(cfg: &TreeConfig, st: BuildState)
    requires
        cfg.wf(),
        st.wf(cfg),
        st.kind == KIND_DECISION,
    ensures
        forall|i: int|
            0 <= i < spec_actions(cfg, st).len() ==> spec_action_sound(
                cfg,
                st,
                #[trigger] spec_actions(cfg, st)[i],
            ),
{
    let cap = st.cap(cfg);
    let acts = spec_actions(cfg, st);
    if st.my_commit() == st.opp_commit() {
        let pot = st.street_pot(cfg);
        let sizes = cfg.spec_open_sizes(st.street, st.to_act, st.prev_bet);
        let bets = spec_candidates(
            sizes,
            0,
            Seq::empty(),
            pot,
            0,
            cap,
            false,
            cfg.force_allin_threshold as int,
            cfg.merging_threshold as int,
        );
        lemma_candidates_sound(
            sizes,
            0,
            Seq::empty(),
            pot,
            0,
            cap,
            false,
            cfg.force_allin_threshold as int,
            cfg.merging_threshold as int,
        );
        let bets2 = spec_with_added_allin(bets, pot, cap, cfg.add_allin_threshold as int);
        assert(spec_kept_sound(bets2, 0, cap, false));
        assert forall|i: int| 0 <= i < acts.len() implies spec_action_sound(
            cfg,
            st,
            #[trigger] acts[i],
        ) by {
            if i == 0 {
                assert(acts[0] == seq![Action::Check][0]);
                assert(acts[0] == Action::Check);
            } else {
                assert(acts[i] == bets2[i - 1]);
            }
        }
    } else {
        let opp = st.opp_commit() as int;
        let pot = st.street_pot(cfg) + 2 * opp;
        let raises = if opp == cap {
            Seq::<Action>::empty()
        } else {
            let sizes = cfg.spec_raise_sizes(st.street, st.to_act);
            let rs = spec_candidates(
                sizes,
                0,
                Seq::empty(),
                pot,
                opp,
                cap,
                true,
                cfg.force_allin_threshold as int,
                cfg.merging_threshold as int,
            );
            spec_with_added_allin(rs, pot, cap, cfg.add_allin_threshold as int)
        };
        if opp < cap {
            let sizes = cfg.spec_raise_sizes(st.street, st.to_act);
            lemma_candidates_sound(
                sizes,
                0,
                Seq::empty(),
                pot,
                opp,
                cap,
                true,
                cfg.force_allin_threshold as int,
                cfg.merging_threshold as int,
            );
        }
        assert(spec_kept_sound(raises, opp, cap, true));
        assert forall|i: int| 0 <= i < acts.len() implies spec_action_sound(
            cfg,
            st,
            #[trigger] acts[i],
        ) by {
            if i == 0 {
                assert(acts[0] == seq![Action::Fold, Action::Call][0]);
                assert(acts[0] == Action::Fold);
            } else if i == 1 {
                assert(acts[1] == seq![Action::Fold, Action::Call][1]);
                assert(acts[1] == Action::Call);
            } else {
                assert(acts[i] == raises[i - 2]);
            }
        }
    }
}

/// The state after a street closes with both players at `matched` chips:
/// the hand ends on the river, otherwise a card is dealt.
pub open spec fn spec_close_street(
    cfg: &TreeConfig,
    st: BuildState,
    matched: u32,
    by_call: bool,
) -> BuildState {
    if st.street == STREET_RIVER {
        BuildState {
            kind: KIND_TERMINAL,
            c0: matched,
            c1: matched,
            checked: false,
            prev_bet: by_call,
            ..st
        }
    } else {
        BuildState {
            kind: KIND_CHANCE,
            to_act: 0,
            c0: 0,
            c1: 0,
            t: (st.t + matched) as u32,
            checked: false,
            prev_bet: by_call,
            ..st
        }
    }
}

/// The state one available action leads to.
pub open spec fn spec_next_state(cfg: &TreeConfig, st: BuildState, a: Action) -> BuildState {
    match a {
        Action::Fold => BuildState { kind: KIND_TERMINAL, ..st },
        Action::Check => if st.checked {
            spec_close_street(cfg, st, 0, false)
        } else {
            BuildState { checked: true, to_act: (1 - st.to_act) as u8, ..st }
        },
        Action::Call => spec_close_street(cfg, st, st.opp_commit(), true),
        Action::Bet(n) => if st.to_act == 0 {
            BuildState { c0: n, to_act: 1, checked: false, ..st }
        } else {
            BuildState { c1: n, to_act: 0, checked: false, ..st }
        },
        Action::Raise(n) => if st.to_act == 0 {
            BuildState { c0: n, to_act: 1, checked: false, ..st }
        } else {
            BuildState { c1: n, to_act: 0, checked: false, ..st }
        },
        Action::AllIn(n) => if st.to_act == 0 {
            BuildState { c0: n, to_act: 1, checked: false, ..st }
        } else {
            BuildState { c1: n, to_act: 0, checked: false, ..st }
        },
    }
}

/// The state after the chance card: the next street opens, or, with the
/// stacks all in, further cards run out to the showdown.
pub open spec fn spec_after_chance(cfg: &TreeConfig, st: BuildState) -> BuildState {
    let s2 = (st.street + 1) as u8;
    if st.t == cfg.effective_stack {
        if s2 == STREET_RIVER {
            BuildState { kind: KIND_TERMINAL, street: s2, ..st }
        } else {
            BuildState { kind: KIND_CHANCE, street: s2, ..st }
        }
    } else {
        BuildState { kind: KIND_DECISION, street: s2, to_act: 0, ..st }
    }
}

/// Rank of a node kind in the termination measure.
pub open spec fn kind_rank(k: u8) -> int {
    if k == KIND_DECISION {
        2
    } else if k == KIND_CHANCE {
        1
    } else {
        0
    }
}

/// Streets still to come: first component of the termination measure.
pub open spec fn m_street(st: BuildState) -> int {
    2 - st.street
}

/// Chips still to be committed: second component of the measure.
pub open spec fn m_room(cfg: &TreeConfig, st: BuildState) -> int {
    2 * (cfg.effective_stack - st.t) - st.c0 - st.c1
}

/// Whether a check is still pending: last component of the measure.
pub open spec fn m_check(st: BuildState) -> int {
    if st.checked {
        0
    } else {
        1
    }
}

/// Strict lexicographic decrease of the builder's measure.
pub open spec fn measure_lt(cfg: &TreeConfig, a: BuildState, b: BuildState) -> bool {
    ||| m_street(a) < m_street(b)
    ||| (m_street(a) == m_street(b) && m_room(cfg, a) < m_room(cfg, b))
    ||| (m_street(a) == m_street(b) && m_room(cfg, a) == m_room(cfg, b) && kind_rank(a.kind)
        < kind_rank(b.kind))
    ||| (m_street(a) == m_street(b) && m_room(cfg, a) == m_room(cfg, b) && kind_rank(a.kind)
        == kind_rank(b.kind) && m_check(a) < m_check(b))
}

/// Taking an available action leads to a well-formed state and strictly
/// decreases the builder's measure.
pub proof fn lemma_next_state_wf(cfg: &TreeConfig, st: BuildState, a: Action)
    requires
        cfg.wf(),
        st.wf(cfg),
        st.kind == KIND_DECISION,
        spec_action_sound(cfg, st, a),
    ensures
        spec_next_state(cfg, st, a).wf(cfg),
        measure_lt(cfg, spec_next_state(cfg, st, a), st),
{
    let next = spec_next_state(cfg, st, a);
    match a {
        Action::Fold => {
            assert(next.wf(cfg));
        },
        Action::Check => {
            assert(next.wf(cfg));
        },
        Action::Call => {
            assert(next.wf(cfg));
        },
        Action::Bet(n) => {
            assert(next.wf(cfg));
        },
        Action::Raise(n) => {
            assert(next.wf(cfg));
        },
        Action::AllIn(n) => {
            assert(next.wf(cfg));
        },
    }
}

/// Dealing the chance card leads to a well-formed state and strictly
/// decreases the builder's measure.
pub proof fn lemma_after_chance_wf(cfg: &TreeConfig, st: BuildState)
    requires
        cfg.wf(),
        st.wf(cfg),
        st.kind == KIND_CHANCE,
    ensures
        spec_after_chance(cfg, st).wf(cfg),
        measure_lt(cfg, spec_after_chance(cfg, st), st),
{
}

/// One edge of a decision node.
pub struct Edge {
    /// The action labeling the edge.
    pub action: Action,
    /// The subtree the action leads to.
    pub child: Node,
}

/// One node of the betting tree.
pub enum Node {
    /// The hand is over: a fold or the showdown.
    Terminal,
    /// The next board card is revealed, then play continues in the subtree.
    Chance(Box<Node>),
    /// One player chooses among the labeled edges.
    Decision {
        /// The player to act: 0 out of position, 1 in position.
        player: u8,
        /// The available actions with their subtrees.
        edges: Vec<Edge>,
    },
}

/// Whether a kept list already holds an all-in, executably.
fn has_allin(kept: &Vec<Action>) -> (b: bool)
    ensures
        b == spec_has_allin(kept@),
{
    let mut i: usize = 0;
    while i < kept.len()
        invariant
            i <= kept@.len(),
            forall|k: int| 0 <= k < i ==> !(#[trigger] kept@[k] is AllIn),
        decreases kept@.len() - i,
    {
        match kept[i] {
            Action::AllIn(_) => {
                assert(kept@[i as int] is AllIn);
                return true;
            },
            _ => {},
        }
        i = i + 1;
    }
    false
}

/// Whether an amount merges into an already kept amount, executably.
fn merged_away(n: u64, kept: &Vec<Action>, thr: u32) -> (b: bool)
    requires
        n <= MAX_STACK,
        thr <= MAX_THRESHOLD,
    ensures
        b == spec_merged_away(n as int, kept@, thr as int),
{
    let mut i: usize = 0;
    while i < kept.len()
        invariant
            i <= kept@.len(),
            n <= MAX_STACK,
            thr <= MAX_THRESHOLD,
            forall|k: int|
                0 <= k < i ==> !(match #[trigger] kept@[k] {
                    Action::Bet(m) => (if n >= m {
                        (n - m) * 1000 <= thr * m
                    } else {
                        (m - n) * 1000 <= thr * m
                    }),
                    Action::Raise(m) => (if n >= m {
                        (n - m) * 1000 <= thr * m
                    } else {
                        (m - n) * 1000 <= thr * m
                    }),
                    Action::AllIn(m) => (if n >= m {
                        (n - m) * 1000 <= thr * m
                    } else {
                        (m - n) * 1000 <= thr * m
                    }),
                    _ => false,
                }),
        decreases kept@.len() - i,
    {
        let m: Option<u64> = match kept[i] {
            Action::Bet(m) => Some(m as u64),
            Action::Raise(m) => Some(m as u64),
            Action::AllIn(m) => Some(m as u64),
            _ => None,
        };
        match m {
            Some(m) => {
                proof {
                    assert((thr as int) * (m as int) <= MAX_THRESHOLD * 0xffffffffu64)
                        by (nonlinear_arith)
                        requires
                            0 <= thr <= MAX_THRESHOLD,
                            0 <= m <= 0xffffffffu64,
                    ;
                }
                let close = if n >= m {
                    (n - m) * 1000 <= (thr as u64) * m
                } else {
                    (m - n) * 1000 <= (thr as u64) * m
                };
                if close {
                    assert(spec_merged_away(n as int, kept@, thr as int)) by {
                        assert(0 <= i < kept@.len());
                    }
                    return true;
                }
            },
            None => {},
        }
        i = i + 1;
    }
    false
}

/// The sized candidates of one list, executably.
fn candidates(
    sizes: &Vec<u32>,
    pot: u32,
    addon: u32,
    cap: u32,
    raising: bool,
    force_thr: u32,
    merge_thr: u32,
) -> (r: Vec<Action>)
    requires
        sizes_wf(sizes@),
        1 <= pot <= 500000000,
        addon < cap <= MAX_STACK,
        force_thr <= MAX_THRESHOLD,
        merge_thr <= MAX_THRESHOLD,
    ensures
        r@ == spec_candidates(
            sizes@,
            0,
            Seq::empty(),
            pot as int,
            addon as int,
            cap as int,
            raising,
            force_thr as int,
            merge_thr as int,
        ),
{
    let ghost target = spec_candidates(
        sizes@,
        0,
        Seq::empty(),
        pot as int,
        addon as int,
        cap as int,
        raising,
        force_thr as int,
        merge_thr as int,
    );
    let mut kept: Vec<Action> = Vec::new();
    let mut i: usize = 0;
    while i < sizes.len()
        invariant
            i <= sizes@.len(),
            sizes_wf(sizes@),
            1 <= pot <= 500000000,
            addon < cap <= MAX_STACK,
            force_thr <= MAX_THRESHOLD,
            merge_thr <= MAX_THRESHOLD,
            spec_candidates(
                sizes@,
                i as int,
                kept@,
                pot as int,
                addon as int,
                cap as int,
                raising,
                force_thr as int,
                merge_thr as int,
            ) == target,
        decreases sizes@.len() - i,
    {
        let pct = sizes[i];
        proof {
            assert(0 <= (pot as int) * (pct as int) <= 500000000 * (MAX_SIZE_PCT as int))
                by (nonlinear_arith)
                requires
                    0 <= pot <= 500000000,
                    0 <= pct <= MAX_SIZE_PCT,
            ;
            assert(0 <= (force_thr as int) * (pot as int) <= (MAX_THRESHOLD as int) * 500000000)
                by (nonlinear_arith)
                requires
                    0 <= pot <= 500000000,
                    0 <= force_thr <= MAX_THRESHOLD,
            ;
        }
        let share: u64 = (pot as u64) * (pct as u64) / 100;
        let share1: u64 = if share < 1 {
            1
        } else {
            share
        };
        let n: u64 = (addon as u64) + share1;
        proof {
            assert(n as int == spec_candidate_amount(pot as int, pct as int, addon as int));
        }
        if n >= cap as u64 || (cap as u64 - n) * 1000 <= (force_thr as u64) * (pot as u64) {
            if !has_allin(&kept) {
                kept.push(Action::AllIn(cap));
            }
        } else if merged_away(n, &kept, merge_thr) {
        } else if raising {
            kept.push(Action::Raise(n as u32));
        } else {
            kept.push(Action::Bet(n as u32));
        }
        i = i + 1;
    }
    kept
}

/// The available actions at a decision state, executably.
pub fn available_actions(cfg: &TreeConfig, st: BuildState) -> (r: Vec<Action>)
    requires
        cfg.wf(),
        st.wf(cfg),
        st.kind == KIND_DECISION,
    ensures
        r@ == spec_actions(cfg, st),
{
    let cap: u32 = cfg.effective_stack - st.t;
    let myc: u32 = if st.to_act == 0 {
        st.c0
    } else {
        st.c1
    };
    let oppc: u32 = if st.to_act == 0 {
        st.c1
    } else {
        st.c0
    };
    if myc == oppc {
        let pot: u32 = cfg.starting_pot + 2 * st.t;
        let sizes = cfg.open_sizes(st.street, st.to_act, st.prev_bet);
        let mut bets = candidates(
            sizes,
            pot,
            0,
            cap,
            false,
            cfg.force_allin_threshold,
            cfg.merging_threshold,
        );
        proof {
            assert(0 <= (cfg.add_allin_threshold as int) * (pot as int) <= (
            MAX_THRESHOLD as int) * 500000000) by (nonlinear_arith)
                requires
                    0 <= pot <= 500000000,
                    0 <= cfg.add_allin_threshold <= MAX_THRESHOLD,
            ;
        }
        if !has_allin(&bets) && (cap as u64) * 1000 <= (cfg.add_allin_threshold as u64) * (
        pot as u64) {
            bets.push(Action::AllIn(cap));
        }
        let mut r: Vec<Action> = Vec::new();
        r.push(Action::Check);
        let ghost bets_view = bets@;
        r.append(&mut bets);
        proof {
            assert(r@ =~= seq![Action::Check] + bets_view);
        }
        r
    } else {
        proof {
            assert((cfg.starting_pot as int) + 2 * (st.t as int) + 2 * (oppc as int)
                <= 500000000);
        }
        let pot: u32 = cfg.starting_pot + 2 * st.t + 2 * oppc;
        let mut raises: Vec<Action> = Vec::new();
        if oppc < cap {
            let sizes = cfg.raise_sizes(st.street, st.to_act);
            raises = candidates(
                sizes,
                pot,
                oppc,
                cap,
                true,
                cfg.force_allin_threshold,
                cfg.merging_threshold,
            );
            proof {
                assert(0 <= (cfg.add_allin_threshold as int) * (pot as int) <= (
                MAX_THRESHOLD as int) * 500000000) by (nonlinear_arith)
                    requires
                        0 <= pot <= 500000000,
                        0 <= cfg.add_allin_threshold <= MAX_THRESHOLD,
                ;
            }
            if !has_allin(&raises) && (cap as u64) * 1000 <= (cfg.add_allin_threshold as u64) * (
            pot as u64) {
                raises.push(Action::AllIn(cap));
            }
        }
        let mut r: Vec<Action> = Vec::new();
        r.push(Action::Fold);
        r.push(Action::Call);
        let ghost raises_view = raises@;
        r.append(&mut raises);
        proof {
            assert(r@ =~= seq![Action::Fold, Action::Call] + raises_view);
        }
        r
    }
}

/// Takes one available action, executably.
pub fn next_state(cfg: &TreeConfig, st: BuildState, a: Action) -> (r: BuildState)
    requires
        cfg.wf(),
        st.wf(cfg),
        st.kind == KIND_DECISION,
        spec_action_sound(cfg, st, a),
    ensures
        r == spec_next_state(cfg, st, a),
        r.wf(cfg),
        measure_lt(cfg, r, st),
{
    proof {
        lemma_next_state_wf(cfg, st, a);
    }
    let mut r = st;
    match a {
        Action::Fold => {
            r.kind = KIND_TERMINAL;
        },
        Action::Check => {
            if st.checked {
                r = close_street(cfg, st, 0, false);
            } else {
                r.checked = true;
                r.to_act = 1 - st.to_act;
            }
        },
        Action::Call => {
            let oppc: u32 = if st.to_act == 0 {
                st.c1
            } else {
                st.c0
            };
            r = close_street(cfg, st, oppc, true);
        },
        Action::Bet(n) => {
            if st.to_act == 0 {
                r.c0 = n;
                r.to_act = 1;
            } else {
                r.c1 = n;
                r.to_act = 0;
            }
            r.checked = false;
        },
        Action::Raise(n) => {
            if st.to_act == 0 {
                r.c0 = n;
                r.to_act = 1;
            } else {
                r.c1 = n;
                r.to_act = 0;
            }
            r.checked = false;
        },
        Action::AllIn(n) => {
            if st.to_act == 0 {
                r.c0 = n;
                r.to_act = 1;
            } else {
                r.c1 = n;
                r.to_act = 0;
            }
            r.checked = false;
        },
    }
    r
}

/// Closes the street at `matched` chips apiece, executably.
fn close_street(cfg: &TreeConfig, st: BuildState, matched: u32, by_call: bool) -> (r: BuildState)
    requires
        cfg.wf(),
        st.wf(cfg),
        st.kind == KIND_DECISION,
        matched <= cfg.effective_stack - st.t,
    ensures
        r == spec_close_street(cfg, st, matched, by_call),
{
    let mut r = st;
    if st.street == STREET_RIVER {
        r.kind = KIND_TERMINAL;
        r.c0 = matched;
        r.c1 = matched;
        r.checked = false;
        r.prev_bet = by_call;
    } else {
        r.kind = KIND_CHANCE;
        r.to_act = 0;
        r.c0 = 0;
        r.c1 = 0;
        r.t = st.t + matched;
        r.checked = false;
        r.prev_bet = by_call;
    }
    r
}

/// Deals the chance card, executably.
pub fn after_chance(cfg: &TreeConfig, st: BuildState) -> (r: BuildState)
    requires
        cfg.wf(),
        st.wf(cfg),
        st.kind == KIND_CHANCE,
    ensures
        r == spec_after_chance(cfg, st),
        r.wf(cfg),
        measure_lt(cfg, r, st),
{
    proof {
        lemma_after_chance_wf(cfg, st);
    }
    let mut r = st;
    r.street = st.street + 1;
    if st.t == cfg.effective_stack {
        if r.street == STREET_RIVER {
            r.kind = KIND_TERMINAL;
        } else {
            r.kind = KIND_CHANCE;
        }
    } else {
        r.kind = KIND_DECISION;
        r.to_act = 0;
    }
    r
}

/// Whether a tree is exactly the one the grammar generates from a state:
/// terminals and chance nodes where the state says, and at each decision the
/// edge labels are the available actions, each subtree matching its
/// successor state.
pub open spec fn node_matches(cfg: &TreeConfig, st: BuildState, n: Node) -> bool
    decreases n,
{
    match n {
        Node::Terminal => st.kind == KIND_TERMINAL,
        Node::Chance(c) => st.kind == KIND_CHANCE && node_matches(
            cfg,
            spec_after_chance(cfg, st),
            *c,
        ),
        Node::Decision { player, edges } => {
            &&& st.kind == KIND_DECISION
            &&& player == st.to_act
            &&& edges@.len() == spec_actions(cfg, st).len()
            &&& forall|j: int|
                0 <= j < edges@.len() ==> (#[trigger] edges@[j]).action == spec_actions(
                    cfg,
                    st,
                )[j] && node_matches(
                    cfg,
                    spec_next_state(cfg, st, spec_actions(cfg, st)[j]),
                    edges@[j].child,
                )
        },
    }
}

/// Generates the subtree of a state.
pub fn build_node(cfg: &TreeConfig, st: BuildState) -> (r: Node)
    requires
        cfg.wf(),
        st.wf(cfg),
    ensures
        node_matches(cfg, st, r),
    decreases m_street(st), m_room(cfg, st), kind_rank(st.kind), m_check(st),
{
    if st.kind == KIND_TERMINAL {
        Node::Terminal
    } else if st.kind == KIND_CHANCE {
        let nst = after_chance(cfg, st);
        let child = build_node(cfg, nst);
        Node::Chance(Box::new(child))
    } else {
        let acts = available_actions(cfg, st);
        proof {
            lemma_actions_sound(cfg, st);
        }
        let mut edges: Vec<Edge> = Vec::new();
        let mut i: usize = 0;
        while i < acts.len()
            invariant
                i <= acts@.len(),
                cfg.wf(),
                st.wf(cfg),
                st.kind == KIND_DECISION,
                acts@ == spec_actions(cfg, st),
                forall|j: int|
                    0 <= j < acts@.len() ==> spec_action_sound(cfg, st, #[trigger] acts@[j]),
                edges@.len() == i,
                forall|j: int|
                    0 <= j < i ==> (#[trigger] edges@[j]).action == acts@[j] && node_matches(
                        cfg,
                        spec_next_state(cfg, st, acts@[j]),
                        edges@[j].child,
                    ),
            decreases acts@.len() - i,
        {
            let a = acts[i];
            let nst = next_state(cfg, st, a);
            let child = build_node(cfg, nst);
            edges.push(Edge { action: a, child });
            i = i + 1;
        }
        Node::Decision { player: st.to_act, edges }
    }
}

/// The edge labels of a node: its available actions when it is a decision.
pub open spec fn spec_node_actions(n: Node) -> Seq<Action> {
    match n {
        Node::Decision { player, edges } => Seq::new(edges@.len(), |j: int| edges@[j].action),
        _ => Seq::empty(),
    }
}

/// First position of an action in a label list, or the list's length.
pub open spec fn spec_find_action(acts: Seq<Action>, a: Action, i: int) -> int
    decreases acts.len() - i,
{
    if i < 0 || i >= acts.len() {
        acts.len() as int
    } else if acts[i] == a {
        i
    } else {
        spec_find_action(acts, a, i + 1)
    }
}

/// One navigation step by action: chance nodes are stepped through, and at a
/// decision the first edge carrying the action is taken.
pub open spec fn spec_step(n: Node, a: Action) -> Option<Node>
    decreases n,
{
    match n {
        Node::Terminal => None,
        Node::Chance(c) => spec_step(*c, a),
        Node::Decision { player, edges } => {
            let acts = Seq::new(edges@.len(), |j: int| edges@[j].action);
            let j = spec_find_action(acts, a, 0);
            if j == acts.len() {
                None
            } else {
                Some(edges@[j].child)
            }
        },
    }
}

/// Navigation along a whole action line.
pub open spec fn spec_walk(n: Node, line: Seq<Action>) -> Option<Node>
    decreases line.len(),
{
    if line.len() == 0 {
        Some(n)
    } else {
        match spec_step(n, line[0]) {
            None => None,
            Some(c) => spec_walk(c, line.skip(1)),
        }
    }
}

/// The available actions of a node a grammar-matched tree ends a line with
/// are the grammar's own.
proof fn lemma_matched_actions(cfg: &TreeConfig, st: BuildState, n: Node)
    requires
        node_matches(cfg, st, n),
        n is Decision,
    ensures
        spec_node_actions(n) == spec_actions(cfg, st),
{
    match n {
        Node::Decision { player, edges } => {
            assert(spec_node_actions(n) =~= spec_actions(cfg, st)) by {
                assert forall|j: int| 0 <= j < edges@.len() implies spec_node_actions(n)[j]
                    == spec_actions(cfg, st)[j] by {
                    assert(edges@[j].action == spec_actions(cfg, st)[j]);
                }
            }
        },
        _ => {},
    }
}

/// Two trees matching the same generation state answer every navigation
/// alike: walking any action line reaches a node in one exactly when it does
/// in the other, and the nodes reached have the same kind and the same
/// available actions.  In particular the grammar is deterministic: built
/// twice from one configuration, the tree offers identical available actions
/// at every reachable node.
pub proof fn lemma_build_deterministic(
    cfg: &TreeConfig,
    st: BuildState,
    n1: Node,
    n2: Node,
    line: Seq<Action>,
)
    requires
        node_matches(cfg, st, n1),
        node_matches(cfg, st, n2),
    ensures
        spec_walk(n1, line) is Some <==> spec_walk(n2, line) is Some,
        match (spec_walk(n1, line), spec_walk(n2, line)) {
            (Some(m1), Some(m2)) => {
                &&& spec_node_actions(m1) == spec_node_actions(m2)
                &&& (m1 is Terminal <==> m2 is Terminal)
                &&& (m1 is Chance <==> m2 is Chance)
            },
            (None, None) => true,
            _ => false,
        },
    decreases line.len(), n1,
{
    match (n1, n2) {
        (Node::Terminal, Node::Terminal) => {},
        (Node::Chance(c1), Node::Chance(c2)) => {
            if line.len() > 0 {
                lemma_build_deterministic(cfg, spec_after_chance(cfg, st), *c1, *c2, line);
                assert(spec_step(n1, line[0]) == spec_step(*c1, line[0]));
                assert(spec_step(n2, line[0]) == spec_step(*c2, line[0]));
                match spec_step(*c1, line[0]) {
                    Some(_) => {
                        assert(spec_walk(n1, line) == spec_walk(*c1, line)) by {
                            assert(spec_walk(*c1, line) == match spec_step(*c1, line[0]) {
                                None => None::<Node>,
                                Some(c) => spec_walk(c, line.skip(1)),
                            });
                        }
                        assert(spec_walk(n2, line) == spec_walk(*c2, line));
                    },
                    None => {},
                }
            } else {
                assert(spec_node_actions(n1) =~= spec_node_actions(n2));
            }
        },
        (
            Node::Decision { player: p1, edges: e1 },
            Node::Decision { player: p2, edges: e2 },
        ) => {
            lemma_matched_actions(cfg, st, n1);
            lemma_matched_actions(cfg, st, n2);
            if line.len() > 0 {
                let a = line[0];
                let acts = spec_actions(cfg, st);
                let acts1 = Seq::new(e1@.len(), |j: int| e1@[j].action);
                let acts2 = Seq::new(e2@.len(), |j: int| e2@[j].action);
                assert(acts1 == acts);
                assert(acts2 == acts);
                let j = spec_find_action(acts, a, 0);
                lemma_find_action_in_range(acts, a, 0);
                if j < acts.len() {
                    assert(e1@[j].child == spec_step(n1, a)->Some_0);
                    lemma_build_deterministic(
                        cfg,
                        spec_next_state(cfg, st, acts[j]),
                        e1@[j].child,
                        e2@[j].child,
                        line.skip(1),
                    );
                }
            }
        },
        _ => {
            assert(st.kind == KIND_TERMINAL ==> n1 is Terminal && n2 is Terminal);
            assert(st.kind == KIND_CHANCE ==> n1 is Chance && n2 is Chance);
            assert(st.kind == KIND_DECISION ==> n1 is Decision && n2 is Decision);
            assert(false);
        },
    }
}

/// The first position of an action lies between the bounds.
pub proof fn lemma_find_action_in_range(acts: Seq<Action>, a: Action, i: int)
    requires
        0 <= i <= acts.len(),
    ensures
        i <= spec_find_action(acts, a, i) <= acts.len(),
        spec_find_action(acts, a, i) < acts.len() ==> acts[spec_find_action(acts, a, i)] == a,
    decreases acts.len() - i,
{
    if i < acts.len() && acts[i] != a {
        lemma_find_action_in_range(acts, a, i + 1);
    }
}

/// The root state of a configuration.
pub fn root_state(cfg: &TreeConfig) -> (r: BuildState)
    requires
        cfg.wf(),
    ensures
        r == BuildState::spec_root(cfg),
        r.wf(cfg),
        r.kind == KIND_DECISION,
{
    BuildState {
        kind: KIND_DECISION,
        street: cfg.initial_street,
        to_act: 0,
        c0: 0,
        c1: 0,
        t: 0,
        checked: false,
        prev_bet: false,
    }
}

/// Generates the whole canonical tree of a configuration.  The grammar is a
/// function of the configuration alone, so two trees generated from equal
/// configurations are characterized by the same `node_matches` relation.
pub fn build_tree(cfg: &TreeConfig) -> (r: Node)
    requires
        cfg.wf(),
    ensures
        node_matches(cfg, BuildState::spec_root(cfg), r),
{
    let st = root_state(cfg);
    build_node(cfg, st)
}

} // verus!
