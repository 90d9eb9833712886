//! The per-session solved-game model: lifecycle state machine, history
//! navigation with strict restoration discipline, and assembly of the
//! displayed statistics.
//!
//! The numeric strategy state (regrets, per-hand weights, equities) belongs
//! to the solve engine outside this library.  The model here owns what the
//! backend decides: the lifecycle (a game must be built before memory is
//! allocated, allocated before it is stepped or finalized), the history
//! cursor over the betting tree with its speculative play-then-restore
//! pattern, card accounting for the chance streets, and the exact numeric
//! policy applied to every reported value.

use vstd::prelude::*;

use crate::action::{Action, spec_display};
use crate::bunching::BunchingController;
use crate::navigator::{
    ActionTree, default_action_tree, spec_skip_chance, spec_bets, spec_node_at,
    spec_decoded_lines, spec_lines_attached, spec_lines_detached,
};
use crate::tree::{spec_node_actions, Node, BuildState, node_matches};
use crate::range::{RangeManager, RangeGrid, WEIGHT_SCALE};
use crate::stats::{
    spec_round_tiered, spec_trunc_weight, round_tiered, trunc_weights, weights_all_zero,
    empty_mask, eqr_report, spec_eqr_quotient, weighted_average, spec_weighted_average,
    spec_weight_sum,
};
use crate::tree::TreeConfig;

verus! {

/// Current-player tag: the out-of-position player is to act.
pub const PLAYER_OOP: u8 = 0u8;

/// Current-player tag: the in-position player is to act.
pub const PLAYER_IP: u8 = 1u8;

/// Current-player tag: the node is a chance node.
pub const PLAYER_CHANCE: u8 = 2u8;

/// Current-player tag: the node is terminal.
pub const PLAYER_TERMINAL: u8 = 3u8;

/// The byte literal `terminal`, reported as the single action of a terminal
/// node.
pub open spec fn spec_terminal_word() -> Seq<u8> {
    seq![116u8, 101u8, 114u8, 109u8, 105u8, 110u8, 97u8, 108u8]
}

/// The byte literal `chance`, reported as the single action of a chance
/// node.
pub open spec fn spec_chance_word() -> Seq<u8> {
    seq![99u8, 104u8, 97u8, 110u8, 99u8, 101u8]
}

/// Why a game request was refused.
#[derive(Clone, Copy, PartialEq, Eq, Structural, Debug)]
pub enum GameError {
    /// The board does not hold three to five distinct cards.
    InvalidBoard,
    /// The tree configuration or customization was refused.
    BadTree,
    /// The game has not been built yet.
    NotBuilt,
    /// Memory has not been allocated yet.
    NotAllocated,
    /// No bunching model is present.
    NoBunching,
    /// An action index is not available at the current node.
    BadAction,
    /// The chance card is not available.
    CardUnavailable,
    /// The history has grown beyond the supported depth.
    TooDeep,
}

/// The session's game state.
pub struct GameSession {
    built: bool,
    allocated: bool,
    compression: bool,
    bunching_linked: bool,
    finalized: bool,
    tree: ActionTree,
    board: Vec<u8>,
    dealt: Vec<u8>,
    history: Vec<usize>,
    rake_milli: u32,
    rake_cap: u32,
}

impl GameSession {
    /// Whether a game has been built.
    pub closed spec fn spec_built(&self) -> bool {
        self.built
    }

    /// Whether memory has been allocated.
    pub closed spec fn spec_allocated(&self) -> bool {
        self.allocated
    }

    /// Whether the strategy has been finalized.
    pub closed spec fn spec_finalized(&self) -> bool {
        self.finalized
    }

    /// Whether a bunching model is linked.
    pub closed spec fn spec_bunching_linked(&self) -> bool {
        self.bunching_linked
    }

    /// The betting tree of the game.
    pub closed spec fn spec_tree(&self) -> ActionTree {
        self.tree
    }

    /// The fixed board cards.
    pub closed spec fn spec_board(&self) -> Seq<u8> {
        self.board@
    }

    /// The chance cards dealt along the current history.
    pub closed spec fn spec_dealt(&self) -> Seq<u8> {
        self.dealt@
    }

    /// The current history of action indexes and cards.
    pub closed spec fn spec_history(&self) -> Seq<usize> {
        self.history@
    }

    /// Whether the session is in a lawful state.
    pub open spec fn wf(&self) -> bool {
        &&& self.spec_tree().wf()
        &&& self.spec_board().len() <= 5
        &&& self.spec_history().len() <= 1000000
        &&& self.spec_tree().spec_path().len() <= self.spec_history().len()
    }

    /// Whether two sessions hold exactly the same state.
    pub open spec fn same_state(&self, other: &GameSession) -> bool {
        &&& self.spec_built() == other.spec_built()
        &&& self.spec_allocated() == other.spec_allocated()
        &&& self.spec_finalized() == other.spec_finalized()
        &&& self.spec_bunching_linked() == other.spec_bunching_linked()
        &&& self.spec_tree().spec_config() == other.spec_tree().spec_config()
        &&& self.spec_tree().spec_root_node() == other.spec_tree().spec_root_node()
        &&& self.spec_tree().spec_path() == other.spec_tree().spec_path()
        &&& self.spec_board() == other.spec_board()
        &&& self.spec_dealt() == other.spec_dealt()
        &&& self.spec_history() == other.spec_history()
    }

    /// A fresh, unbuilt game.
    pub fn new() -> (r: GameSession)
        ensures
            r.wf(),
            !r.spec_built(),
            !r.spec_allocated(),
            !r.spec_finalized(),
    {
        GameSession {
            built: false,
            allocated: false,
            compression: false,
            bunching_linked: false,
            finalized: false,
            tree: default_action_tree(),
            board: Vec::new(),
            dealt: Vec::new(),
            history: Vec::new(),
            rake_milli: 0,
            rake_cap: 0,
        }
    }

    /// Whether a board is a lawful starting board: three to five distinct
    /// cards below 52.
    pub open spec fn spec_board_ok(board: Seq<u8>) -> bool {
        &&& 3 <= board.len() <= 5
        &&& forall|i: int| 0 <= i < board.len() ==> #[trigger] board[i] < 52
        &&& forall|i: int, j: int| 0 <= i < j < board.len() ==> board[i] != board[j]
    }

    /// Checks a starting board executably.
    pub fn board_ok(board: &Vec<u8>) -> (r: bool)
        ensures
            r == Self::spec_board_ok(board@),
    {
        if board.len() < 3 || board.len() > 5 {
            return false;
        }
        let mut i: usize = 0;
        while i < board.len()
            invariant
                i <= board@.len(),
                forall|k: int| 0 <= k < i ==> #[trigger] board@[k] < 52,
                forall|k: int, j: int| 0 <= k < j < i ==> board@[k] != board@[j],
            decreases board@.len() - i,
        {
            if board[i] >= 52 {
                return false;
            }
            let mut j: usize = 0;
            while j < i
                invariant
                    j <= i < board@.len(),
                    forall|k: int| 0 <= k < j ==> #[trigger] board@[k] != board@[i as int],
                decreases i - j,
            {
                if board[j] == board[i] {
                    return false;
                }
                j = j + 1;
            }
            i = i + 1;
        }
        true
    }

    /// The configuration a game build uses: the given one with the initial
    /// street derived from the board length.
    pub open spec fn spec_init_config(config: TreeConfig, board: Seq<u8>) -> TreeConfig {
        TreeConfig {
            initial_street: if board.len() <= 3 {
                0u8
            } else if board.len() == 4 {
                1u8
            } else {
                2u8
            },
            ..config
        }
    }

    /// Builds the game: validates the board, derives the initial street from
    /// its length, and generates the tree with its customization lists.  On
    /// failure the previous game state is preserved.  The rake parameters
    /// are recorded for the solve engine in per-mille and chips.
    pub fn init(
        &mut self,
        config: TreeConfig,
        board: &Vec<u8>,
        rake_milli: u32,
        rake_cap: u32,
        added: &Vec<u8>,
        removed: &Vec<u8>,
    ) -> (r: Result<(), GameError>)
        requires
            old(self).wf(),
        ensures
            final(self).wf(),
            r == Result::<(), GameError>::Err(GameError::InvalidBoard) <==> !Self::spec_board_ok(
                board@,
            ),
            Self::spec_board_ok(board@) && (crate::line::spec_decode_lines(added@) is None
                || crate::line::spec_decode_lines(removed@) is None) ==> r == Result::<
                (),
                GameError,
            >::Err(GameError::BadTree),
            Self::spec_board_ok(board@) && crate::line::spec_decode_lines(added@) is Some
                && crate::line::spec_decode_lines(removed@) is Some && !Self::spec_init_config(
                config,
                board@,
            ).wf() ==> r == Result::<(), GameError>::Err(GameError::BadTree),
            Self::spec_board_ok(board@) && crate::line::spec_decode_lines(added@) is Some
                && crate::line::spec_decode_lines(removed@) is Some && Self::spec_init_config(
                config,
                board@,
            ).wf() && spec_decoded_lines(added@).len() == 0 && spec_decoded_lines(
                removed@,
            ).len() == 0 ==> r is Ok,
            r is Ok ==> final(self).spec_tree().spec_config() == Self::spec_init_config(
                config,
                board@,
            ) && final(self).spec_tree().spec_path().len() == 0
                && final(self).spec_tree().spec_added() == spec_decoded_lines(added@)
                && final(self).spec_tree().spec_removed() == spec_decoded_lines(removed@),
            r is Ok ==> exists|g: Node, mid: Node|
                node_matches(
                    &Self::spec_init_config(config, board@),
                    BuildState::spec_root(&Self::spec_init_config(config, board@)),
                    g,
                ) && #[trigger] spec_lines_attached(
                    g,
                    spec_decoded_lines(added@),
                    0,
                    spec_decoded_lines(added@).len() as int,
                    mid,
                ) && spec_lines_detached(
                    mid,
                    spec_decoded_lines(removed@),
                    0,
                    spec_decoded_lines(removed@).len() as int,
                    final(self).spec_tree().spec_root_node(),
                ),
            match r {
                Ok(()) => {
                    &&& Self::spec_board_ok(board@)
                    &&& final(self).spec_built()
                    &&& !final(self).spec_allocated()
                    &&& !final(self).spec_finalized()
                    &&& final(self).spec_board() == board@
                    &&& final(self).spec_dealt().len() == 0
                    &&& final(self).spec_history().len() == 0
                },
                Err(e) => {
                    &&& final(self).same_state(old(self))
                    &&& (e == GameError::InvalidBoard ==> !Self::spec_board_ok(board@))
                },
            },
    {
        if !Self::board_ok(board) {
            return Err(GameError::InvalidBoard);
        }
        let street: u8 = if board.len() == 3 {
            0
        } else if board.len() == 4 {
            1
        } else {
            2
        };
        let config2 = TreeConfig { initial_street: street, ..config };
        let mut t = default_action_tree();
        match t.rebuild(config2, added, removed) {
            Ok(()) => {},
            Err(_) => {
                return Err(GameError::BadTree);
            },
        }
        self.tree = t;
        self.built = true;
        self.allocated = false;
        self.finalized = false;
        self.bunching_linked = false;
        self.board = crate::game::copy_bytes(board);
        self.dealt = Vec::new();
        self.history = Vec::new();
        self.rake_milli = rake_milli;
        self.rake_cap = rake_cap;
        Ok(())
    }

    /// Allocates the solve engine's memory; a checked failure before a game
    /// is built.
    pub fn allocate_memory(&mut self, enable_compression: bool) -> (r: Result<(), GameError>)
        requires
            old(self).wf(),
        ensures
            final(self).wf(),
            match r {
                Ok(()) => old(self).spec_built() && final(self).spec_allocated() && !final(self).spec_finalized(),
                Err(e) => e == GameError::NotBuilt && !old(self).spec_built() && final(self).same_state(old(self)),
            },
    {
        if !self.built {
            return Err(GameError::NotBuilt);
        }
        self.allocated = true;
        self.compression = enable_compression;
        self.finalized = false;
        Ok(())
    }

    /// Links the bunching model; a checked failure when none is present or
    /// no game is built.
    pub fn set_bunching(&mut self, bunching: &BunchingController) -> (r: Result<(), GameError>)
        requires
            old(self).wf(),
            bunching.wf(),
        ensures
            final(self).wf(),
            r is Ok <==> old(self).spec_built() && bunching.spec_has_model(),
            match r {
                Ok(()) => bunching.spec_has_model() && old(self).spec_built() && final(self).spec_bunching_linked(),
                Err(e) => {
                    &&& final(self).same_state(old(self))
                    &&& (e == GameError::NotBuilt <==> !old(self).spec_built())
                    &&& (e == GameError::NoBunching <==> old(self).spec_built()
                        && !bunching.spec_has_model())
                },
            },
    {
        if !self.built {
            return Err(GameError::NotBuilt);
        }
        if !bunching.has_model() {
            return Err(GameError::NoBunching);
        }
        self.bunching_linked = true;
        Ok(())
    }

    /// One solve iteration may run only on an allocated game; the iteration
    /// itself belongs to the solve engine.
    pub fn solve_step(&self, _current_iteration: u32) -> (r: Result<(), GameError>)
        requires
            self.wf(),
        ensures
            r is Ok <==> self.spec_allocated(),
            r is Err ==> r == Result::<(), GameError>::Err(GameError::NotAllocated),
    {
        if !self.allocated {
            return Err(GameError::NotAllocated);
        }
        Ok(())
    }

    /// Marks the strategy normalized and final; a checked failure before
    /// memory is allocated.
    pub fn finalize(&mut self) -> (r: Result<(), GameError>)
        requires
            old(self).wf(),
        ensures
            final(self).wf(),
            match r {
                Ok(()) => old(self).spec_allocated() && final(self).spec_finalized(),
                Err(e) => e == GameError::NotAllocated && !old(self).spec_allocated() && final(self).same_state(old(self)),
            },
    {
        if !self.allocated {
            return Err(GameError::NotAllocated);
        }
        self.finalized = true;
        Ok(())
    }

    /// Whether a card can still come off the deck: it is on neither the
    /// board nor the dealt list.
    pub open spec fn spec_card_available(&self, card: u8) -> bool {
        &&& card < 52
        &&& !self.spec_board().contains(card)
        &&& !self.spec_dealt().contains(card)
    }

    /// Checks card availability executably.
    pub fn card_available(&self, card: u8) -> (r: bool)
        requires
            self.wf(),
        ensures
            r == self.spec_card_available(card),
    {
        if card >= 52 {
            return false;
        }
        if contains_byte(&self.board, card) {
            return false;
        }
        if contains_byte(&self.dealt, card) {
            return false;
        }
        true
    }

    /// The 52-bit mask of available next cards, bit `c` standing for card
    /// `c`.
    pub fn possible_cards(&self) -> (r: u64)
        requires
            self.wf(),
        ensures
            forall|c: u8| c < 52 ==> ((#[trigger] (r >> (c as u64))) & 1 == 1) == self
                .spec_card_available(c),
    {
        let mut mask: u64 = 0;
        let mut c: u8 = 0;
        proof {
            assert(0u64 < (1u64 << 0u64)) by (bit_vector);
        }
        while c < 52
            invariant
                c <= 52,
                self.wf(),
                mask < (1u64 << (c as u64)),
                forall|d: u8| d < c ==> ((#[trigger] (mask >> (d as u64))) & 1 == 1) == self
                    .spec_card_available(d),
            decreases 52 - c,
        {
            let avail = self.card_available(c);
            let ghost m0 = mask;
            let ghost cc = c as u64;
            if avail {
                proof {
                    assert((m0 | (1u64 << cc)) < (1u64 << (cc + 1)) && ((m0 | (1u64 << cc)) >> cc)
                        & 1 == 1 && (forall|d: u64|
                        d < cc ==> ((m0 | (1u64 << cc)) >> d) & 1 == #[trigger] ((m0 >> d) & 1)))
                        by (bit_vector)
                        requires
                            m0 < (1u64 << cc),
                            cc < 52,
                    ;
                }
                mask = mask | (1u64 << (c as u64));
                proof {
                    assert forall|d: u8| d < c + 1 implies ((#[trigger] (mask >> (d as u64))) & 1
                        == 1) == self.spec_card_available(d) by {
                        if d < c {
                            assert((mask >> (d as u64)) & 1 == (m0 >> (d as u64)) & 1);
                        }
                    }
                }
            } else {
                proof {
                    assert(m0 < (1u64 << (cc + 1)) && ((m0 >> cc) & 1 == 0)) by (bit_vector)
                        requires
                            m0 < (1u64 << cc),
                            cc < 52,
                    ;
                }
            }
            c = c + 1;
        }
        mask
    }

    /// What navigation never touches: the lifecycle flags, the board, and
    /// the tree's shape.
    pub open spec fn fixed_parts(&self, other: &GameSession) -> bool {
        &&& self.spec_built() == other.spec_built()
        &&& self.spec_allocated() == other.spec_allocated()
        &&& self.spec_finalized() == other.spec_finalized()
        &&& self.spec_bunching_linked() == other.spec_bunching_linked()
        &&& self.spec_tree().spec_config() == other.spec_tree().spec_config()
        &&& self.spec_tree().spec_root_node() == other.spec_tree().spec_root_node()
        &&& self.spec_tree().spec_added() == other.spec_tree().spec_added()
        &&& self.spec_tree().spec_removed() == other.spec_tree().spec_removed()
        &&& self.spec_board() == other.spec_board()
    }

    /// What one history index does from a given cursor state: at a chance
    /// node it deals an available card, at a decision node it takes an edge;
    /// `None` when the step is unavailable or the history is full.
    pub open spec fn spec_game_step(
        root: Node,
        board: Seq<u8>,
        path: Seq<usize>,
        dealt: Seq<u8>,
        histlen: int,
        index: usize,
    ) -> Option<(Seq<usize>, Seq<u8>)> {
        if histlen >= 1000000 {
            None
        } else {
            match spec_node_at(root, path) {
                Node::Terminal => None,
                Node::Chance(_) => if index < 52 && !board.contains(index as u8)
                    && !dealt.contains(index as u8) {
                    Some((path.push(0), dealt.push(index as u8)))
                } else {
                    None
                },
                Node::Decision { .. } => if index < spec_node_actions(
                    spec_node_at(root, path),
                ).len() {
                    Some((path.push(index), dealt))
                } else {
                    None
                },
            }
        }
    }

    /// The cursor state a whole continuation reaches, step by step from
    /// position `i`; `None` when any step is unavailable.
    pub open spec fn spec_replay(
        root: Node,
        board: Seq<u8>,
        path: Seq<usize>,
        dealt: Seq<u8>,
        histlen: int,
        append: Seq<usize>,
        i: int,
    ) -> Option<(Seq<usize>, Seq<u8>)>
        decreases append.len() - i,
    {
        if i < 0 || i >= append.len() {
            Some((path, dealt))
        } else {
            match Self::spec_game_step(root, board, path, dealt, histlen + i, append[i]) {
                None => None,
                Some(s) => Self::spec_replay(root, board, s.0, s.1, histlen, append, i + 1),
            }
        }
    }

    /// Plays one history step: at a chance node the index names the card to
    /// deal; at a decision node it names the edge to take.  Succeeds exactly
    /// when the step is available; a checked failure otherwise, with nothing
    /// changed.
    pub fn play(&mut self, index: usize) -> (r: Result<(), GameError>)
        requires
            old(self).wf(),
        ensures
            final(self).wf(),
            final(self).fixed_parts(old(self)),
            r is Ok <==> Self::spec_game_step(
                old(self).spec_tree().spec_root_node(),
                old(self).spec_board(),
                old(self).spec_tree().spec_path(),
                old(self).spec_dealt(),
                old(self).spec_history().len() as int,
                index,
            ) is Some,
            match r {
                Ok(()) => {
                    &&& final(self).spec_history() == old(self).spec_history().push(index)
                    &&& Self::spec_game_step(
                        old(self).spec_tree().spec_root_node(),
                        old(self).spec_board(),
                        old(self).spec_tree().spec_path(),
                        old(self).spec_dealt(),
                        old(self).spec_history().len() as int,
                        index,
                    ) == Some((final(self).spec_tree().spec_path(), final(self).spec_dealt()))
                    &&& final(self).spec_dealt().take(old(self).spec_dealt().len() as int) == old(
                        self,
                    ).spec_dealt()
                    &&& final(self).spec_dealt().len() >= old(self).spec_dealt().len()
                },
                Err(e) => {
                    &&& final(self).same_state(old(self))
                    &&& (e == GameError::TooDeep <==> old(self).spec_history().len() >= 1000000)
                    &&& (old(self).spec_history().len() < 1000000 ==> (e
                        == GameError::CardUnavailable <==> old(self).spec_tree().spec_current()
                        is Chance))
                },
            },
    {
        if self.history.len() >= 1000000 {
            return Err(GameError::TooDeep);
        }
        if self.tree.is_chance_node() {
            if index >= 52 {
                return Err(GameError::CardUnavailable);
            }
            let card = index as u8;
            if !self.card_available(card) {
                return Err(GameError::CardUnavailable);
            }
            match self.tree.enter_chance() {
                Ok(()) => {},
                Err(_) => {
                    return Err(GameError::BadAction);
                },
            }
            self.dealt.push(card);
            self.history.push(index);
            proof {
                assert(self.spec_dealt().take(old(self).spec_dealt().len() as int) =~= old(
                    self,
                ).spec_dealt());
            }
            Ok(())
        } else {
            match self.tree.play_index(index) {
                Ok(()) => {
                    self.history.push(index);
                    proof {
                        assert(self.spec_dealt().take(old(self).spec_dealt().len() as int) =~= old(
                            self,
                        ).spec_dealt());
                    }
                    Ok(())
                },
                Err(_) => Err(GameError::BadAction),
            }
        }
    }

    /// The current-player tag at the cursor.
    pub fn current_player(&self) -> (r: u8)
        requires
            self.wf(),
        ensures
            self.spec_tree().spec_current() is Terminal ==> r == PLAYER_TERMINAL,
            self.spec_tree().spec_current() is Chance ==> r == PLAYER_CHANCE,
            self.spec_tree().spec_current() matches crate::tree::Node::Decision { player, .. }
                ==> r == (if player == 0 { PLAYER_OOP } else { PLAYER_IP }),
    {
        if self.tree.is_terminal_node() {
            PLAYER_TERMINAL
        } else if self.tree.is_chance_node() {
            PLAYER_CHANCE
        } else {
            let pl = self.tree.current_player_label();
            if pl == 0 {
                PLAYER_OOP
            } else {
                PLAYER_IP
            }
        }
    }

    /// How many actions the current node offers: none at a chance node, the
    /// available actions otherwise.
    pub fn num_actions(&self) -> (r: usize)
        requires
            self.wf(),
        ensures
            self.spec_tree().spec_current() is Chance ==> r == 0,
            !(self.spec_tree().spec_current() is Chance) ==> r == spec_node_actions(
                spec_skip_chance(self.spec_tree().spec_current()),
            ).len(),
    {
        if self.tree.is_chance_node() {
            0
        } else {
            let acts = self.tree.actions();
            acts.len()
        }
    }

    /// The committed chips per player after speculatively playing the given
    /// continuation from the current node.  Succeeds exactly when every step
    /// of the continuation is available, answering the totals at the node it
    /// reaches; the history is restored exactly before returning, whatever
    /// happened.
    pub fn total_bet_amount(&mut self, append: &Vec<usize>) -> (r: Result<(u64, u64), GameError>)
        requires
            old(self).wf(),
        ensures
            final(self).wf(),
            final(self).same_state(old(self)),
            r is Ok <==> Self::spec_replay(
                old(self).spec_tree().spec_root_node(),
                old(self).spec_board(),
                old(self).spec_tree().spec_path(),
                old(self).spec_dealt(),
                old(self).spec_history().len() as int,
                append@,
                0,
            ) is Some,
            Self::spec_replay(
                old(self).spec_tree().spec_root_node(),
                old(self).spec_board(),
                old(self).spec_tree().spec_path(),
                old(self).spec_dealt(),
                old(self).spec_history().len() as int,
                append@,
                0,
            ) matches Some(s) ==> (r matches Ok(t) && (t.0 as int, t.1 as int) == spec_bets(
                old(self).spec_tree().spec_root_node(),
                s.0,
                0,
                0,
                0,
                0,
            )),
    {
        let cp = self.speculate(append);
        let totals = self.tree.total_bet_amount();
        match cp {
            Ok(cp) => {
                self.restore(cp);
                Ok(totals)
            },
            Err((cp, e)) => {
                self.restore(cp);
                Err(e)
            },
        }
    }

    /// The display forms of the actions available after speculatively
    /// playing the given continuation — or the literal `terminal` or
    /// `chance` tag at such a node.  Succeeds exactly when every step of the
    /// continuation is available; the history is restored exactly before
    /// returning, whatever happened.
    pub fn actions_after(&mut self, append: &Vec<usize>) -> (r: Result<Vec<Vec<u8>>, GameError>)
        requires
            old(self).wf(),
        ensures
            final(self).wf(),
            final(self).same_state(old(self)),
            r is Ok <==> Self::spec_replay(
                old(self).spec_tree().spec_root_node(),
                old(self).spec_board(),
                old(self).spec_tree().spec_path(),
                old(self).spec_dealt(),
                old(self).spec_history().len() as int,
                append@,
                0,
            ) is Some,
            Self::spec_replay(
                old(self).spec_tree().spec_root_node(),
                old(self).spec_board(),
                old(self).spec_tree().spec_path(),
                old(self).spec_dealt(),
                old(self).spec_history().len() as int,
                append@,
                0,
            ) matches Some(s) ==> (r matches Ok(acts) && ({
                let reached = spec_node_at(old(self).spec_tree().spec_root_node(), s.0);
                &&& (reached is Terminal ==> acts@.len() == 1 && acts@[0]@
                    == spec_terminal_word())
                &&& (reached is Chance ==> acts@.len() == 1 && acts@[0]@ == spec_chance_word())
                &&& (!(reached is Terminal) && !(reached is Chance) ==> {
                    let labels = spec_node_actions(spec_skip_chance(reached));
                    acts@.len() == labels.len() && forall|j: int|
                        0 <= j < labels.len() ==> (#[trigger] acts@[j])@ == spec_display(
                            labels[j],
                        )
                })
            })),
    {
        let cp = self.speculate(append);
        let acts = self.actions_list();
        match cp {
            Ok(cp) => {
                self.restore(cp);
                Ok(acts)
            },
            Err((cp, e)) => {
                self.restore(cp);
                Err(e)
            },
        }
    }

    /// The action display list at the cursor: the `terminal` or `chance`
    /// literal at such nodes, else the available actions.
    pub fn actions_list(&self) -> (r: Vec<Vec<u8>>)
        requires
            self.wf(),
        ensures
            self.spec_tree().spec_current() is Terminal ==> r@.len() == 1 && r@[0]@
                == spec_terminal_word(),
            self.spec_tree().spec_current() is Chance ==> r@.len() == 1 && r@[0]@
                == spec_chance_word(),
            !(self.spec_tree().spec_current() is Terminal) && !(self.spec_tree().spec_current()
                is Chance) ==> {
                let acts = spec_node_actions(spec_skip_chance(self.spec_tree().spec_current()));
                r@.len() == acts.len() && forall|j: int|
                    0 <= j < acts.len() ==> (#[trigger] r@[j])@ == spec_display(acts[j])
            },
    {
        if self.tree.is_terminal_node() {
            let mut word: Vec<u8> = Vec::new();
            word.push(116u8);
            word.push(101u8);
            word.push(114u8);
            word.push(109u8);
            word.push(105u8);
            word.push(110u8);
            word.push(97u8);
            word.push(108u8);
            let mut out: Vec<Vec<u8>> = Vec::new();
            out.push(word);
            out
        } else if self.tree.is_chance_node() {
            let mut word: Vec<u8> = Vec::new();
            word.push(99u8);
            word.push(104u8);
            word.push(97u8);
            word.push(110u8);
            word.push(99u8);
            word.push(101u8);
            let mut out: Vec<Vec<u8>> = Vec::new();
            out.push(word);
            out
        } else {
            self.tree.actions()
        }
    }

    /// Captures the cursor state, then plays a continuation.  The checkpoint
    /// handed back restores the state exactly.
    pub fn speculate(&mut self, append: &Vec<usize>) -> (r: Result<
        (Vec<usize>, usize, usize),
        ((Vec<usize>, usize, usize), GameError),
    >)
        requires
            old(self).wf(),
        ensures
            final(self).wf(),
            final(self).fixed_parts(old(self)),
            ({
                let cp = match r {
                    Ok(c) => c,
                    Err((c, _)) => c,
                };
                &&& cp.0@ == old(self).spec_tree().spec_path()
                &&& crate::navigator::spec_path_valid(
                    final(self).spec_tree().spec_root_node(),
                    cp.0@,
                )
                &&& cp.1 == old(self).spec_dealt().len()
                &&& cp.2 == old(self).spec_history().len()
                &&& final(self).spec_dealt().take(cp.1 as int) == old(self).spec_dealt()
                &&& final(self).spec_dealt().len() >= cp.1
                &&& final(self).spec_history().take(cp.2 as int) == old(self).spec_history()
                &&& final(self).spec_history().len() >= cp.2
            }),
            r is Ok && append@.len() == 0 ==> final(self).same_state(old(self)),
            r is Ok <==> Self::spec_replay(
                old(self).spec_tree().spec_root_node(),
                old(self).spec_board(),
                old(self).spec_tree().spec_path(),
                old(self).spec_dealt(),
                old(self).spec_history().len() as int,
                append@,
                0,
            ) is Some,
            r is Ok ==> Self::spec_replay(
                old(self).spec_tree().spec_root_node(),
                old(self).spec_board(),
                old(self).spec_tree().spec_path(),
                old(self).spec_dealt(),
                old(self).spec_history().len() as int,
                append@,
                0,
            ) == Some((final(self).spec_tree().spec_path(), final(self).spec_dealt())),
    {
        let cp_path = self.tree.checkpoint();
        let cp_dealt = self.dealt.len();
        let cp_hist = self.history.len();
        let mut i: usize = 0;
        proof {
            assert(self.spec_dealt().take(self.spec_dealt().len() as int) =~= self.spec_dealt());
            assert(self.spec_history().take(self.spec_history().len() as int)
                =~= self.spec_history());
        }
        while i < append.len()
            invariant
                i <= append@.len(),
                self.wf(),
                self.fixed_parts(old(self)),
                cp_path@ == old(self).spec_tree().spec_path(),
                crate::navigator::spec_path_valid(self.spec_tree().spec_root_node(), cp_path@),
                cp_dealt == old(self).spec_dealt().len(),
                cp_hist == old(self).spec_history().len(),
                self.spec_dealt().take(cp_dealt as int) == old(self).spec_dealt(),
                self.spec_dealt().len() >= cp_dealt,
                self.spec_history().take(cp_hist as int) == old(self).spec_history(),
                self.spec_history().len() == cp_hist + i,
                i == 0 ==> self.same_state(old(self)),
                Self::spec_replay(
                    old(self).spec_tree().spec_root_node(),
                    old(self).spec_board(),
                    old(self).spec_tree().spec_path(),
                    old(self).spec_dealt(),
                    old(self).spec_history().len() as int,
                    append@,
                    0,
                ) == Self::spec_replay(
                    old(self).spec_tree().spec_root_node(),
                    old(self).spec_board(),
                    self.spec_tree().spec_path(),
                    self.spec_dealt(),
                    old(self).spec_history().len() as int,
                    append@,
                    i as int,
                ),
            decreases append@.len() - i,
        {
            let ghost pre_dealt = self.spec_dealt();
            let ghost pre_hist = self.spec_history();
            match self.play(append[i]) {
                Ok(()) => {
                    proof {
                        assert(self.spec_dealt().take(cp_dealt as int) =~= old(self).spec_dealt());
                        assert(self.spec_history().take(cp_hist as int) =~= old(
                            self,
                        ).spec_history());
                    }
                },
                Err(e) => {
                    return Err(((cp_path, cp_dealt, cp_hist), e));
                },
            }
            i = i + 1;
        }
        Ok((cp_path, cp_dealt, cp_hist))
    }

    /// Restores the state a checkpoint captured: the exact history-
    /// restoration discipline of speculative exploration.
    pub fn restore(&mut self, cp: (Vec<usize>, usize, usize))
        requires
            old(self).wf(),
            crate::navigator::spec_path_valid(old(self).spec_tree().spec_root_node(), cp.0@),
            cp.1 <= old(self).spec_dealt().len(),
            cp.2 <= old(self).spec_history().len(),
            cp.2 <= 1000000,
            cp.0@.len() <= cp.2,
        ensures
            final(self).wf(),
            final(self).fixed_parts(old(self)),
            final(self).spec_tree().spec_path() == cp.0@,
            final(self).spec_dealt() == old(self).spec_dealt().take(cp.1 as int),
            final(self).spec_history() == old(self).spec_history().take(cp.2 as int),
    {
        let (path, dlen, hlen) = cp;
        self.tree.restore_path(&path);
        self.dealt.truncate(dlen);
        self.history.truncate(hlen);
    }

    /// The current history.
    pub fn history(&self) -> (r: Vec<usize>)
        requires
            self.wf(),
        ensures
            r@ == self.spec_history(),
    {
        let mut out: Vec<usize> = Vec::new();
        let mut i: usize = 0;
        while i < self.history.len()
            invariant
                i <= self.history@.len(),
                out@ =~= self.history@.take(i as int),
            decreases self.history@.len() - i,
        {
            out.push(self.history[i]);
            proof {
                assert(out@ =~= self.history@.take(i + 1));
            }
            i = i + 1;
        }
        proof {
            assert(self.history@.take(self.history@.len() as int) =~= self.history@);
        }
        out
    }
}

/// The display statistics of the current node, every value already passed
/// through the numeric policy.  The undefined equity-realization ratio is an
/// explicit `None`, never a finite number.
pub struct ResultsReport {
    /// Current-player tag.
    pub current_player: u8,
    /// Number of available actions (zero at a chance node).
    pub num_actions: usize,
    /// Empty-range bitmask: bit 0 out-of-position, bit 1 in-position.
    pub is_empty: u8,
    /// Per-player EQR pot bases.
    pub eqr_base: (u64, u64),
    /// Truncated per-hand weights, out-of-position player.
    pub weights0: Vec<u64>,
    /// Truncated per-hand weights, in-position player.
    pub weights1: Vec<u64>,
    /// Normalizing weights: the truncated raw weights when a side is empty,
    /// the solver's normalized weights otherwise.
    pub normalizer0: Vec<u64>,
    /// Normalizing weights of the in-position player.
    pub normalizer1: Vec<u64>,
    /// Rounded per-hand equity, empty when a side is empty.
    pub equity0: Vec<i64>,
    /// Rounded per-hand equity of the in-position player.
    pub equity1: Vec<i64>,
    /// Rounded per-hand expected values.
    pub ev0: Vec<i64>,
    /// Rounded per-hand expected values of the in-position player.
    pub ev1: Vec<i64>,
    /// Per-hand equity-realization ratio; `None` is the undefined signal.
    pub eqr0: Vec<Option<i64>>,
    /// Per-hand EQR of the in-position player.
    pub eqr1: Vec<Option<i64>>,
    /// Rounded strategy vector, empty at terminal and chance nodes.
    pub strategy: Vec<i64>,
    /// Rounded per-action expected values, empty unless both ranges are
    /// populated at a decision node.
    pub action_ev: Vec<i64>,
}

/// One row of a chance report: the statistics of a single candidate card.
pub struct ChanceReportRow {
    /// 0: the card is impossible; 1: a range is empty there; 2: populated.
    pub status: u8,
    /// Rounded total weighted combos per player.
    pub combos: (i64, i64),
    /// Rounded weighted-average equity per player (populated rows only).
    pub equity: (i64, i64),
    /// Rounded weighted-average expected value per player.
    pub ev: (i64, i64),
    /// Equity-realization ratio per player; `None` is the undefined signal.
    pub eqr: (Option<i64>, Option<i64>),
}

/// Applies the tiered rounding to each entry.
fn round_vec(v: &Vec<i64>) -> (r: Vec<i64>)
    requires
        forall|k: int|
            0 <= k < v@.len() ==> -1000000000000 <= #[trigger] v@[k] <= 1000000000000,
    ensures
        r@.len() == v@.len(),
        forall|k: int| 0 <= k < v@.len() ==> #[trigger] r@[k] == spec_round_tiered(v@[k] as int),
{
    let mut out: Vec<i64> = Vec::new();
    let mut i: usize = 0;
    while i < v.len()
        invariant
            i <= v@.len(),
            out@.len() == i,
            forall|k: int|
                0 <= k < v@.len() ==> -1000000000000 <= #[trigger] v@[k] <= 1000000000000,
            forall|k: int| 0 <= k < i ==> #[trigger] out@[k] == spec_round_tiered(v@[k] as int),
        decreases v@.len() - i,
    {
        out.push(round_tiered(v[i]));
        i = i + 1;
    }
    out
}

/// Copies a weight vector.
fn copy_weights(v: &Vec<u64>) -> (r: Vec<u64>)
    ensures
        r@ == v@,
{
    let mut out: Vec<u64> = Vec::new();
    let mut i: usize = 0;
    while i < v.len()
        invariant
            i <= v@.len(),
            out@ =~= v@.take(i as int),
        decreases v@.len() - i,
    {
        out.push(v[i]);
        proof {
            assert(out@ =~= v@.take(i + 1));
        }
        i = i + 1;
    }
    proof {
        assert(v@.take(v@.len() as int) =~= v@);
    }
    out
}

/// The per-hand equity-realization ratios of one player: entry `i` is `None`
/// exactly when the rounded equity of hand `i` is zero — the undefined
/// signal of an insufficient sample — and the tier-rounded ratio otherwise.
pub fn eqr_vec(ev: &Vec<i64>, eq: &Vec<u64>, pot: u64) -> (r: Vec<Option<i64>>)
    requires
        ev@.len() == eq@.len(),
        1 <= pot <= 100000000000,
        forall|k: int| 0 <= k < eq@.len() ==> #[trigger] eq@[k] <= 1000000,
        forall|k: int|
            0 <= k < ev@.len() ==> -1000000000000 <= #[trigger] ev@[k] <= 1000000000000,
    ensures
        r@.len() == ev@.len(),
        forall|k: int| 0 <= k < r@.len() ==> ((#[trigger] r@[k]) is None <==> eq@[k] == 0),
        forall|k: int|
            0 <= k < r@.len() ==> (eq@[k] != 0 ==> #[trigger] r@[k] == Some(
                spec_round_tiered(
                    spec_eqr_quotient(ev@[k] as int, pot as int, eq@[k] as int),
                ) as i64,
            )),
{
    let mut out: Vec<Option<i64>> = Vec::new();
    let mut i: usize = 0;
    while i < ev.len()
        invariant
            i <= ev@.len(),
            ev@.len() == eq@.len(),
            1 <= pot <= 100000000000,
            forall|k: int| 0 <= k < eq@.len() ==> #[trigger] eq@[k] <= 1000000,
            forall|k: int|
                0 <= k < ev@.len() ==> -1000000000000 <= #[trigger] ev@[k] <= 1000000000000,
            out@.len() == i,
            forall|k: int| 0 <= k < i ==> ((#[trigger] out@[k]) is None <==> eq@[k] == 0),
            forall|k: int|
                0 <= k < i ==> (eq@[k] != 0 ==> #[trigger] out@[k] == Some(
                    spec_round_tiered(
                        spec_eqr_quotient(ev@[k] as int, pot as int, eq@[k] as int),
                    ) as i64,
                )),
        decreases ev@.len() - i,
    {
        out.push(eqr_report(ev[i], pot, eq[i]));
        i = i + 1;
    }
    out
}

/// Sum of a weight vector, in micro-units.
pub fn weight_sum(v: &Vec<u64>) -> (r: u64)
    requires
        v@.len() <= 100000,
        forall|k: int| 0 <= k < v@.len() ==> #[trigger] v@[k] <= 1000000,
    ensures
        r == spec_weight_sum(v@, v@.len() as int),
        r <= 100000000000,
{
    let mut acc: u64 = 0;
    let mut i: usize = 0;
    while i < v.len()
        invariant
            i <= v@.len(),
            v@.len() <= 100000,
            forall|k: int| 0 <= k < v@.len() ==> #[trigger] v@[k] <= 1000000,
            acc == spec_weight_sum(v@, i as int),
            acc <= i * 1000000,
        decreases v@.len() - i,
    {
        acc = acc + v[i];
        i = i + 1;
    }
    acc
}

impl GameSession {
    /// Assembles the display statistics of the current node from the solve
    /// engine's raw per-hand data, applying the whole numeric policy:
    /// weights are truncated, normalization is skipped (not computed) when a
    /// side's range is empty, every value is tier-rounded, and the
    /// equity-realization ratio of a hand whose rounded equity is zero is
    /// the undefined signal.  Reading results before memory is allocated is
    /// a checked failure, as is a committed total beyond the numeric
    /// policy's range; it succeeds in every other case.
    #[verifier::rlimit(100)]
    pub fn results_report(
        &self,
        raw_weights0: &Vec<u64>,
        raw_weights1: &Vec<u64>,
        normalized0: &Vec<u64>,
        normalized1: &Vec<u64>,
        equity0: &Vec<u64>,
        equity1: &Vec<u64>,
        ev0: &Vec<i64>,
        ev1: &Vec<i64>,
        strategy: &Vec<i64>,
        action_ev: &Vec<i64>,
    ) -> (r: Result<ResultsReport, GameError>)
        requires
            self.wf(),
            self.spec_path_len_ok(),
            raw_weights0@.len() <= 100000,
            raw_weights1@.len() <= 100000,
            equity0@.len() == ev0@.len() == raw_weights0@.len(),
            equity1@.len() == ev1@.len() == raw_weights1@.len(),
            forall|k: int| 0 <= k < raw_weights0@.len() ==> #[trigger] raw_weights0@[k] <= 1000000,
            forall|k: int| 0 <= k < raw_weights1@.len() ==> #[trigger] raw_weights1@[k] <= 1000000,
            forall|k: int| 0 <= k < equity0@.len() ==> #[trigger] equity0@[k] <= 1000000,
            forall|k: int| 0 <= k < equity1@.len() ==> #[trigger] equity1@[k] <= 1000000,
            forall|k: int|
                0 <= k < ev0@.len() ==> -1000000000000 <= #[trigger] ev0@[k] <= 1000000000000,
            forall|k: int|
                0 <= k < ev1@.len() ==> -1000000000000 <= #[trigger] ev1@[k] <= 1000000000000,
            forall|k: int|
                0 <= k < strategy@.len() ==> -1000000000000 <= #[trigger] strategy@[k]
                    <= 1000000000000,
            forall|k: int|
                0 <= k < action_ev@.len() ==> -1000000000000 <= #[trigger] action_ev@[k]
                    <= 1000000000000,
        ensures
            r == Result::<ResultsReport, GameError>::Err(GameError::NotAllocated) <==> !self
                .spec_allocated(),
            r == Result::<ResultsReport, GameError>::Err(GameError::TooDeep) <==> self
                .spec_allocated() && !({
                let bets = spec_bets(
                    self.spec_tree().spec_root_node(),
                    self.spec_tree().spec_path(),
                    0,
                    0,
                    0,
                    0,
                );
                bets.0 <= 10000000000 && bets.1 <= 10000000000
            }),
            r matches Err(e) ==> e == GameError::NotAllocated || e == GameError::TooDeep,
            r matches Ok(rep) ==> ({
                let bets = spec_bets(
                    self.spec_tree().spec_root_node(),
                    self.spec_tree().spec_path(),
                    0,
                    0,
                    0,
                    0,
                );
                let low = if bets.0 <= bets.1 {
                    bets.0
                } else {
                    bets.1
                };
                rep.eqr_base.0 == self.spec_tree().spec_config().starting_pot + low + bets.0
                    && rep.eqr_base.1 == self.spec_tree().spec_config().starting_pot + low
                    + bets.1
            }),
            r matches Ok(rep) ==> ({
                let cur = self.spec_tree().spec_current();
                &&& (cur is Terminal ==> rep.current_player == PLAYER_TERMINAL)
                &&& (cur is Chance ==> rep.current_player == PLAYER_CHANCE)
                &&& (cur matches Node::Decision { player, .. } ==> rep.current_player == (
                if player == 0 {
                    PLAYER_OOP
                } else {
                    PLAYER_IP
                }))
                &&& (cur is Chance ==> rep.num_actions == 0)
                &&& (!(cur is Chance) ==> rep.num_actions == spec_node_actions(
                    spec_skip_chance(cur),
                ).len())
            }),
            r matches Ok(rep) ==> ({
                let cur = self.spec_tree().spec_current();
                &&& (cur is Terminal || cur is Chance ==> rep.strategy@.len() == 0
                    && rep.action_ev@.len() == 0)
                &&& (cur is Decision ==> rep.strategy@.len() == strategy@.len() && forall|k: int|
                    0 <= k < strategy@.len() ==> #[trigger] rep.strategy@[k]
                        == spec_round_tiered(strategy@[k] as int))
                &&& (cur is Decision && rep.is_empty == 0 ==> rep.action_ev@.len()
                    == action_ev@.len() && forall|k: int|
                    0 <= k < action_ev@.len() ==> #[trigger] rep.action_ev@[k]
                        == spec_round_tiered(action_ev@[k] as int))
                &&& (rep.is_empty != 0 ==> rep.action_ev@.len() == 0)
            }),
            r matches Ok(rep) ==> (rep.is_empty != 0 ==> rep.ev0@.len() == 0 && rep.ev1@.len()
                == 0),
            r matches Ok(rep) ==> (rep.is_empty == 0 ==> rep.ev0@.len() == ev0@.len()
                && rep.ev1@.len() == ev1@.len() && rep.eqr0@.len() == equity0@.len()
                && rep.eqr1@.len() == equity1@.len()),
            r matches Ok(rep) ==> (rep.is_empty == 0 ==> (forall|k: int|
                0 <= k < equity0@.len() ==> #[trigger] rep.equity0@[k] == spec_round_tiered(
                    equity0@[k] as int,
                )) && (forall|k: int|
                0 <= k < equity1@.len() ==> #[trigger] rep.equity1@[k] == spec_round_tiered(
                    equity1@[k] as int,
                )) && (forall|k: int|
                0 <= k < ev0@.len() ==> #[trigger] rep.ev0@[k] == spec_round_tiered(
                    ev0@[k] as int,
                )) && (forall|k: int|
                0 <= k < ev1@.len() ==> #[trigger] rep.ev1@[k] == spec_round_tiered(
                    ev1@[k] as int,
                ))),
            r matches Ok(rep) ==> (rep.is_empty == 0 ==> forall|k: int|
                0 <= k < equity1@.len() && equity1@[k] != 0 ==> #[trigger] rep.eqr1@[k] == Some(
                    spec_round_tiered(
                        spec_eqr_quotient(
                            ev1@[k] as int,
                            rep.eqr_base.1 as int,
                            equity1@[k] as int,
                        ),
                    ) as i64,
                )),
            r matches Ok(rep) ==> rep.weights0@.len() == raw_weights0@.len() && forall|k: int|
                0 <= k < raw_weights0@.len() ==> #[trigger] rep.weights0@[k] == spec_trunc_weight(
                    raw_weights0@[k] as int,
                ),
            r matches Ok(rep) ==> rep.weights1@.len() == raw_weights1@.len() && forall|k: int|
                0 <= k < raw_weights1@.len() ==> #[trigger] rep.weights1@[k] == spec_trunc_weight(
                    raw_weights1@[k] as int,
                ),
            r matches Ok(rep) ==> rep.is_empty == (if (forall|k: int|
                0 <= k < rep.weights0@.len() ==> #[trigger] rep.weights0@[k] == 0) {
                1int
            } else {
                0int
            }) + 2 * (if (forall|k: int|
                0 <= k < rep.weights1@.len() ==> #[trigger] rep.weights1@[k] == 0) {
                1int
            } else {
                0int
            }),
            r matches Ok(rep) ==> (rep.is_empty != 0 ==> rep.normalizer0@ == rep.weights0@
                && rep.normalizer1@ == rep.weights1@ && rep.equity0@.len() == 0
                && rep.equity1@.len() == 0 && rep.eqr0@.len() == 0 && rep.eqr1@.len() == 0),
            r matches Ok(rep) ==> (rep.is_empty == 0 ==> rep.normalizer0@ == normalized0@
                && rep.normalizer1@ == normalized1@ && rep.equity0@.len() == equity0@.len()
                && rep.equity1@.len() == equity1@.len()),
            r matches Ok(rep) ==> (rep.is_empty == 0 ==> forall|k: int|
                0 <= k < equity0@.len() ==> ((#[trigger] rep.eqr0@[k]) is None <==> equity0@[k]
                    == 0)),
            r matches Ok(rep) ==> (rep.is_empty == 0 ==> forall|k: int|
                0 <= k < equity1@.len() ==> ((#[trigger] rep.eqr1@[k]) is None <==> equity1@[k]
                    == 0)),
            r matches Ok(rep) ==> (rep.is_empty == 0 ==> forall|k: int|
                0 <= k < equity0@.len() && equity0@[k] != 0 ==> #[trigger] rep.eqr0@[k] == Some(
                    spec_round_tiered(
                        spec_eqr_quotient(
                            ev0@[k] as int,
                            rep.eqr_base.0 as int,
                            equity0@[k] as int,
                        ),
                    ) as i64,
                )),
    {
        if !self.allocated {
            return Err(GameError::NotAllocated);
        }
        let totals = self.tree.total_bet_amount();
        if totals.0 > 10000000000 || totals.1 > 10000000000 {
            return Err(GameError::TooDeep);
        }
        let pot_base: u64 = self.tree.starting_pot() as u64 + (if totals.0 <= totals.1 {
            totals.0
        } else {
            totals.1
        });
        let base0: u64 = pot_base + totals.0;
        let base1: u64 = pot_base + totals.1;
        let w0 = trunc_weights(raw_weights0);
        let w1 = trunc_weights(raw_weights1);
        let ghost w0v = w0@;
        let ghost w1v = w1@;
        let e0 = weights_all_zero(&w0);
        let e1 = weights_all_zero(&w1);
        let mask = empty_mask(e0, e1);
        let current_player = self.current_player();
        let num_actions = self.num_actions();
        if mask != 0 {
            let n0 = copy_weights(&w0);
            let n1 = copy_weights(&w1);
            let strategy_out = if current_player == PLAYER_OOP || current_player == PLAYER_IP {
                round_vec(strategy)
            } else {
                Vec::new()
            };
            let rep = ResultsReport {
                current_player,
                num_actions,
                is_empty: mask,
                eqr_base: (base0, base1),
                weights0: w0,
                weights1: w1,
                normalizer0: n0,
                normalizer1: n1,
                equity0: Vec::new(),
                equity1: Vec::new(),
                ev0: Vec::new(),
                ev1: Vec::new(),
                eqr0: Vec::new(),
                eqr1: Vec::new(),
                strategy: strategy_out,
                action_ev: Vec::new(),
            };
            proof {
                assert(rep.weights0@ == w0v);
                assert(rep.weights1@ == w1v);
                assert(rep.is_empty != 0);
                assert(e0 == (forall|k: int|
                    0 <= k < rep.weights0@.len() ==> #[trigger] rep.weights0@[k] == 0));
                assert(e1 == (forall|k: int|
                    0 <= k < rep.weights1@.len() ==> #[trigger] rep.weights1@[k] == 0));
            }
            Ok(rep)
        } else {
            let n0 = copy_weights(normalized0);
            let n1 = copy_weights(normalized1);
            let eqv0 = round_u64_vec(equity0);
            let eqv1 = round_u64_vec(equity1);
            let evv0 = round_vec(ev0);
            let evv1 = round_vec(ev1);
            let eqr0 = eqr_vec(ev0, equity0, base0);
            let eqr1 = eqr_vec(ev1, equity1, base1);
            proof {
                assert(forall|k: int|
                    0 <= k < equity0@.len() && equity0@[k] != 0 ==> #[trigger] eqr0@[k] == Some(
                        spec_round_tiered(
                            spec_eqr_quotient(ev0@[k] as int, base0 as int, equity0@[k] as int),
                        ) as i64,
                    ));
            }
            let strategy_out = if current_player == PLAYER_OOP || current_player == PLAYER_IP {
                round_vec(strategy)
            } else {
                Vec::new()
            };
            let action_ev_out = if current_player == PLAYER_OOP || current_player == PLAYER_IP {
                round_vec(action_ev)
            } else {
                Vec::new()
            };
            let rep = ResultsReport {
                current_player,
                num_actions,
                is_empty: 0,
                eqr_base: (base0, base1),
                weights0: w0,
                weights1: w1,
                normalizer0: n0,
                normalizer1: n1,
                equity0: eqv0,
                equity1: eqv1,
                ev0: evv0,
                ev1: evv1,
                eqr0,
                eqr1,
                strategy: strategy_out,
                action_ev: action_ev_out,
            };
            proof {
                assert(rep.weights0@ == w0v);
                assert(rep.weights1@ == w1v);
                assert(e0 == (forall|k: int|
                    0 <= k < rep.weights0@.len() ==> #[trigger] rep.weights0@[k] == 0));
                assert(e1 == (forall|k: int|
                    0 <= k < rep.weights1@.len() ==> #[trigger] rep.weights1@[k] == 0));
                assert(rep.is_empty == 0);
                assert(rep.eqr_base.0 == base0);
                assert(forall|k: int| 0 <= k < equity0@.len() ==> ((#[trigger] rep.eqr0@[k]) is None <==> equity0@[k] == 0));
                assert forall|k: int| 0 <= k < equity0@.len() && equity0@[k] != 0 implies #[trigger] rep.eqr0@[k] == Some(
                    spec_round_tiered(
                        spec_eqr_quotient(ev0@[k] as int, rep.eqr_base.0 as int, equity0@[k] as int),
                    ) as i64,
                ) by {
                    assert(rep.eqr0@[k] == Some(
                        spec_round_tiered(
                            spec_eqr_quotient(ev0@[k] as int, base0 as int, equity0@[k] as int),
                        ) as i64,
                    ));
                }
            }
            Ok(rep)
        }
    }

    /// Whether the cursor is shallow enough for the numeric policy.
    pub open spec fn spec_path_len_ok(&self) -> bool {
        self.spec_tree().spec_path().len() <= 1000000000
    }
}

/// Rounds a nonnegative micro-unit vector (equities, strategy weights): at
/// most one natural unit, these round to themselves.
fn round_u64_vec(v: &Vec<u64>) -> (r: Vec<i64>)
    requires
        forall|k: int| 0 <= k < v@.len() ==> #[trigger] v@[k] <= 1000000,
    ensures
        r@.len() == v@.len(),
        forall|k: int| 0 <= k < v@.len() ==> #[trigger] r@[k] == spec_round_tiered(v@[k] as int),
{
    let mut out: Vec<i64> = Vec::new();
    let mut i: usize = 0;
    while i < v.len()
        invariant
            i <= v@.len(),
            out@.len() == i,
            forall|k: int| 0 <= k < v@.len() ==> #[trigger] v@[k] <= 1000000,
            forall|k: int| 0 <= k < i ==> #[trigger] out@[k] == spec_round_tiered(v@[k] as int),
        decreases v@.len() - i,
    {
        out.push(round_tiered(v[i] as i64));
        i = i + 1;
    }
    out
}

/// One row of a chance report, from the solve engine's raw per-hand data at
/// the speculatively played card.  The status tag is 0 for an impossible
/// card, 1 when a range is empty there, and 2 when populated; combos are the
/// rounded truncated-weight sums; equity, expected value and EQR are
/// weighted averages under the normalizing weights, with the EQR undefined
/// when the average equity rounds to zero.  Per-action strategy summaries
/// come from `strategy_summary`.
pub fn chance_report_row(
    possible: bool,
    raw_weights0: &Vec<u64>,
    raw_weights1: &Vec<u64>,
    normalized0: &Vec<u64>,
    normalized1: &Vec<u64>,
    equity0: &Vec<i64>,
    equity1: &Vec<i64>,
    ev0: &Vec<i64>,
    ev1: &Vec<i64>,
    pot0: u64,
    pot1: u64,
) -> (r: ChanceReportRow)
    requires
        raw_weights0@.len() <= 100000,
        raw_weights1@.len() <= 100000,
        normalized0@.len() == raw_weights0@.len(),
        normalized1@.len() == raw_weights1@.len(),
        equity0@.len() == ev0@.len() == raw_weights0@.len(),
        equity1@.len() == ev1@.len() == raw_weights1@.len(),
        1 <= pot0 <= 100000000000,
        1 <= pot1 <= 100000000000,
        forall|k: int| 0 <= k < raw_weights0@.len() ==> #[trigger] raw_weights0@[k] <= 1000000,
        forall|k: int| 0 <= k < raw_weights1@.len() ==> #[trigger] raw_weights1@[k] <= 1000000,
        forall|k: int| 0 <= k < normalized0@.len() ==> #[trigger] normalized0@[k] <= 1000000,
        forall|k: int| 0 <= k < normalized1@.len() ==> #[trigger] normalized1@[k] <= 1000000,
        forall|k: int| 0 <= k < equity0@.len() ==> 0 <= #[trigger] equity0@[k] <= 1000000,
        forall|k: int| 0 <= k < equity1@.len() ==> 0 <= #[trigger] equity1@[k] <= 1000000,
        forall|k: int|
            0 <= k < ev0@.len() ==> -1000000000000 <= #[trigger] ev0@[k] <= 1000000000000,
        forall|k: int|
            0 <= k < ev1@.len() ==> -1000000000000 <= #[trigger] ev1@[k] <= 1000000000000,
    ensures
        !possible ==> r.status == 0,
        r.status == 0 || r.status == 1 || r.status == 2,
        r.status == 0 ==> r.combos.0 == 0 && r.combos.1 == 0 && r.equity.0 == 0 && r.equity.1
            == 0 && r.ev.0 == 0 && r.ev.1 == 0 && r.eqr.0 is None && r.eqr.1 is None,
        r.status == 1 ==> r.equity.0 == 0 && r.equity.1 == 0 && r.ev.0 == 0 && r.ev.1 == 0
            && r.eqr.0 is None && r.eqr.1 is None,
        possible ==> {
            let w0 = raw_weights0@.map_values(|w: u64| spec_trunc_weight(w as int) as u64);
            let w1 = raw_weights1@.map_values(|w: u64| spec_trunc_weight(w as int) as u64);
            let e0 = forall|k: int| 0 <= k < w0.len() ==> #[trigger] w0[k] == 0;
            let e1 = forall|k: int| 0 <= k < w1.len() ==> #[trigger] w1[k] == 0;
            &&& (r.status == 1 <==> (e0 || e1))
            &&& (r.status == 2 <==> (!e0 && !e1))
            &&& r.combos.0 == spec_round_tiered(spec_weight_sum(w0, w0.len() as int))
            &&& r.combos.1 == spec_round_tiered(spec_weight_sum(w1, w1.len() as int))
        },
        r.status == 2 ==> ({
            let ws = spec_weight_sum(normalized0@, normalized0@.len() as int);
            let eq = spec_clamp_unit(
                if ws == 0 {
                    0int
                } else {
                    spec_weighted_average(equity0@, normalized0@)
                },
            );
            let ev = if ws == 0 {
                0int
            } else {
                spec_weighted_average(ev0@, normalized0@)
            };
            &&& r.equity.0 == spec_round_tiered(eq)
            &&& r.ev.0 == spec_round_tiered(ev)
            &&& (r.eqr.0 is None <==> eq == 0)
            &&& (eq != 0 ==> r.eqr.0 == Some(
                spec_round_tiered(spec_eqr_quotient(ev, pot0 as int, eq)) as i64,
            ))
        }),
        r.status == 2 ==> ({
            let ws = spec_weight_sum(normalized1@, normalized1@.len() as int);
            let eq = spec_clamp_unit(
                if ws == 0 {
                    0int
                } else {
                    spec_weighted_average(equity1@, normalized1@)
                },
            );
            let ev = if ws == 0 {
                0int
            } else {
                spec_weighted_average(ev1@, normalized1@)
            };
            &&& r.equity.1 == spec_round_tiered(eq)
            &&& r.ev.1 == spec_round_tiered(ev)
            &&& (r.eqr.1 is None <==> eq == 0)
            &&& (eq != 0 ==> r.eqr.1 == Some(
                spec_round_tiered(spec_eqr_quotient(ev, pot1 as int, eq)) as i64,
            ))
        }),
{
    if !possible {
        return ChanceReportRow {
            status: 0,
            combos: (0, 0),
            equity: (0, 0),
            ev: (0, 0),
            eqr: (None, None),
        };
    }
    let w0 = trunc_weights(raw_weights0);
    let w1 = trunc_weights(raw_weights1);
    proof {
        assert(w0@ =~= raw_weights0@.map_values(|w: u64| spec_trunc_weight(w as int) as u64));
        assert(w1@ =~= raw_weights1@.map_values(|w: u64| spec_trunc_weight(w as int) as u64));
        assert(forall|k: int| 0 <= k < w0@.len() ==> #[trigger] w0@[k] <= 1000000);
        assert(forall|k: int| 0 <= k < w1@.len() ==> #[trigger] w1@[k] <= 1000000);
    }
    let s0 = weight_sum(&w0);
    let s1 = weight_sum(&w1);
    let combos0 = round_tiered(s0 as i64);
    let combos1 = round_tiered(s1 as i64);
    let e0 = weights_all_zero(&w0);
    let e1 = weights_all_zero(&w1);
    if e0 || e1 {
        return ChanceReportRow {
            status: 1,
            combos: (combos0, combos1),
            equity: (0, 0),
            ev: (0, 0),
            eqr: (None, None),
        };
    }
    let eq_avg0 = match weighted_average(equity0, normalized0) {
        Some(x) => x,
        None => 0,
    };
    let eq_avg1 = match weighted_average(equity1, normalized1) {
        Some(x) => x,
        None => 0,
    };
    let ev_avg0 = match weighted_average(ev0, normalized0) {
        Some(x) => x,
        None => 0,
    };
    let ev_avg1 = match weighted_average(ev1, normalized1) {
        Some(x) => x,
        None => 0,
    };
    let eq_r0 = round_tiered(clamp_unit(eq_avg0) as i64);
    let eq_r1 = round_tiered(clamp_unit(eq_avg1) as i64);
    let ev_r0 = round_tiered(ev_avg0);
    let ev_r1 = round_tiered(ev_avg1);
    let eqr0 = eqr_report(ev_avg0, pot0, clamp_unit(eq_avg0));
    let eqr1 = eqr_report(ev_avg1, pot1, clamp_unit(eq_avg1));
    ChanceReportRow {
        status: 2,
        combos: (combos0, combos1),
        equity: (eq_r0, eq_r1),
        ev: (ev_r0, ev_r1),
        eqr: (eqr0, eqr1),
    }
}

/// The per-action strategy summary of one chance-report row: for each
/// action, the weighted average of its slice of the flattened strategy
/// matrix.  The averaging weights are the player's own truncated weights
/// when the opponent's range is empty — normalization is skipped there —
/// and the normalized weights otherwise.  An action whose weights sum to
/// zero summarizes to zero.
pub fn strategy_summary(
    strategy: &Vec<i64>,
    num_actions: usize,
    own_trunc: &Vec<u64>,
    normalized: &Vec<u64>,
    opp_empty: bool,
) -> (r: Vec<i64>)
    requires
        own_trunc@.len() == normalized@.len(),
        own_trunc@.len() <= 100000,
        num_actions <= 1000,
        strategy@.len() == num_actions * own_trunc@.len(),
        forall|k: int| 0 <= k < own_trunc@.len() ==> #[trigger] own_trunc@[k] <= 1000000,
        forall|k: int| 0 <= k < normalized@.len() ==> #[trigger] normalized@[k] <= 1000000,
        forall|k: int|
            0 <= k < strategy@.len() ==> -1000000000000 <= #[trigger] strategy@[k]
                <= 1000000000000,
    ensures
        r@.len() == num_actions,
        ({
            let ws = if opp_empty {
                own_trunc@
            } else {
                normalized@
            };
            let nh = own_trunc@.len() as int;
            forall|a: int|
                0 <= a < num_actions ==> #[trigger] r@[a] == (if spec_weight_sum(
                    ws,
                    ws.len() as int,
                ) == 0 {
                    0int
                } else {
                    spec_round_tiered(
                        spec_weighted_average(strategy@.subrange(a * nh, a * nh + nh), ws),
                    )
                })
        }),
{
    let ws: &Vec<u64> = if opp_empty {
        own_trunc
    } else {
        normalized
    };
    let nh = own_trunc.len();
    let slen = strategy.len();
    let mut out: Vec<i64> = Vec::new();
    let mut a: usize = 0;
    while a < num_actions
        invariant
            a <= num_actions <= 1000,
            nh == own_trunc@.len() == normalized@.len(),
            nh <= 100000,
            slen == strategy@.len(),
            strategy@.len() == num_actions * nh,
            ws@ == (if opp_empty {
                own_trunc@
            } else {
                normalized@
            }),
            forall|k: int| 0 <= k < ws@.len() ==> #[trigger] ws@[k] <= 1000000,
            forall|k: int|
                0 <= k < strategy@.len() ==> -1000000000000 <= #[trigger] strategy@[k]
                    <= 1000000000000,
            out@.len() == a,
            forall|b: int|
                0 <= b < a ==> #[trigger] out@[b] == (if spec_weight_sum(ws@, ws@.len() as int)
                    == 0 {
                    0int
                } else {
                    spec_round_tiered(
                        spec_weighted_average(
                            strategy@.subrange(b * nh, b * nh + nh),
                            ws@,
                        ),
                    )
                }),
        decreases num_actions - a,
    {
        proof {
            assert((a + 1) * nh <= num_actions * nh) by (nonlinear_arith)
                requires
                    a + 1 <= num_actions,
                    nh >= 0,
            ;
            assert(a * nh + nh == (a + 1) * nh) by (nonlinear_arith);
            assert(a * nh >= 0) by (nonlinear_arith)
                requires
                    a >= 0,
                    nh >= 0,
            ;
            assert(a * nh + nh <= strategy@.len());
            assert(strategy@.len() <= usize::MAX);
        }
        let lo = a * nh;
        let hi = lo + nh;
        match crate::stats::weighted_average_range(strategy, lo, hi, ws) {
            Some(avg) => {
                out.push(round_tiered(avg));
            },
            None => {
                out.push(0);
            },
        }
        a = a + 1;
    }
    out
}

/// A signed micro-unit average clamped into the unit interval.
pub open spec fn spec_clamp_unit(v: int) -> int {
    if v < 0 {
        0
    } else if v > 1000000 {
        1000000
    } else {
        v
    }
}

/// Clamps a signed micro-unit average into the unit interval.
fn clamp_unit(v: i64) -> (r: u64)
    ensures
        r <= 1000000,
        r == spec_clamp_unit(v as int),
{
    if v < 0 {
        0
    } else if v > 1000000 {
        1000000
    } else {
        v as u64
    }
}

/// The encoded private combos of one player from position `(c1, c2)` on:
/// every card pair with positive range weight and no card on the board, as
/// the low card plus 256 times the high card, enumerated by high card.
pub open spec fn spec_private_from(g: Seq<u32>, board: Seq<u8>, c1: int, c2: int) -> Seq<u16>
    decreases 52 - c2, c2 - c1,
{
    if c2 < 1 || c2 >= 52 || c1 < 0 || c1 > c2 {
        Seq::empty()
    } else if c1 == c2 {
        spec_private_from(g, board, 0, c2 + 1)
    } else {
        (if g[RangeGrid::spec_combo_cell(c1, c2)] > 0 && !board.contains(c1 as u8)
            && !board.contains(c2 as u8) {
            seq![(c1 + 256 * c2) as u16]
        } else {
            Seq::empty()
        }) + spec_private_from(g, board, c1 + 1, c2)
    }
}

impl GameSession {
    /// The private combos of one analyzed player: the pairs of cards with
    /// positive weight in the player's range that do not conflict with the
    /// board, each encoded as low card plus 256 times the high card.
    pub fn private_cards(&self, rm: &RangeManager, player: usize) -> (r: Vec<u16>)
        requires
            self.wf(),
            rm.wf(),
            player < 2,
        ensures
            r@ == spec_private_from(rm.grid(player as int), self.spec_board(), 0, 1),
    {
        let ghost g = rm.grid(player as int);
        let ghost board = self.spec_board();
        let grid = rm.player_grid(player);
        let mut out: Vec<u16> = Vec::new();
        let mut c2: usize = 1;
        proof {
            assert(out@ + spec_private_from(g, board, 0, 1) =~= spec_private_from(g, board, 0, 1));
        }
        while c2 < 52
            invariant
                1 <= c2 <= 52,
                rm.wf(),
                player < 2,
                grid@ == g,
                grid.wf(),
                board == self.spec_board(),
                out@ + spec_private_from(g, board, 0, c2 as int) == spec_private_from(
                    g,
                    board,
                    0,
                    1,
                ),
            decreases 52 - c2,
        {
            let mut c1: usize = 0;
            while c1 < c2
                invariant
                    1 <= c2 < 52,
                    c1 <= c2,
                    rm.wf(),
                    player < 2,
                    grid@ == g,
                    grid.wf(),
                    board == self.spec_board(),
                    out@ + spec_private_from(g, board, c1 as int, c2 as int)
                        == spec_private_from(g, board, 0, 1),
                decreases c2 - c1,
            {
                let cell = RangeGrid::combo_cell(c1, c2);
                let w = grid.cell(cell);
                if w > 0 && !contains_byte(&self.board, c1 as u8) && !contains_byte(
                    &self.board,
                    c2 as u8,
                ) {
                    let ghost pre = out@;
                    out.push((c1 + 256 * c2) as u16);
                    proof {
                        assert(out@ =~= pre + seq![(c1 + 256 * c2) as u16]);
                        assert(out@ + spec_private_from(g, board, c1 + 1, c2 as int) =~= pre
                            + spec_private_from(g, board, c1 as int, c2 as int));
                    }
                } else {
                    proof {
                        assert(out@ + spec_private_from(g, board, c1 + 1, c2 as int) =~= out@
                            + spec_private_from(g, board, c1 as int, c2 as int));
                    }
                }
                c1 = c1 + 1;
            }
            c2 = c2 + 1;
        }
        proof {
            assert(spec_private_from(g, board, 0, 52) =~= Seq::<u16>::empty());
            assert(out@ =~= out@ + Seq::<u16>::empty());
        }
        out
    }

    /// Runs a block of solve iterations' lifecycle checks; the iterations
    /// themselves belong to the solve engine.
    pub fn solve_steps(&self, current_iteration: u32, _num_iterations: u32) -> (r: Result<
        (),
        GameError,
    >)
        requires
            self.wf(),
        ensures
            r is Ok <==> self.spec_allocated(),
            r is Err ==> r == Result::<(), GameError>::Err(GameError::NotAllocated),
    {
        self.solve_step(current_iteration)
    }
}

/// Whether a byte vector holds a byte.
fn contains_byte(v: &Vec<u8>, b: u8) -> (r: bool)
    ensures
        r == v@.contains(b),
{
    let mut i: usize = 0;
    while i < v.len()
        invariant
            i <= v@.len(),
            forall|k: int| 0 <= k < i ==> #[trigger] v@[k] != b,
        decreases v@.len() - i,
    {
        if v[i] == b {
            assert(v@[i as int] == b);
            return true;
        }
        i = i + 1;
    }
    proof {
        assert(!v@.contains(b));
    }
    false
}

/// Copies a byte vector.
pub fn copy_bytes(v: &Vec<u8>) -> (r: Vec<u8>)
    ensures
        r@ == v@,
{
    let mut out: Vec<u8> = Vec::new();
    let mut i: usize = 0;
    while i < v.len()
        invariant
            i <= v@.len(),
            out@ =~= v@.take(i as int),
        decreases v@.len() - i,
    {
        out.push(v[i]);
        proof {
            assert(out@ =~= v@.take(i + 1));
        }
        i = i + 1;
    }
    proof {
        assert(v@.take(v@.len() as int) =~= v@);
    }
    out
}

} // verus!
