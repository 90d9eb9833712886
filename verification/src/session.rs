//! The per-session aggregate: one instance of every resource.
//!
//! A session owns one range store, one action tree, one bunching controller
//! and one game.  `reset` replaces all of them with fresh defaults in a
//! single exclusive call, so no partial reset is ever observable.  The
//! process around the library guards each resource with its own exclusive
//! lock; operations on distinct resources proceed independently, and this
//! aggregate is what a full reset swaps out atomically.

use vstd::prelude::*;

use crate::bunching::BunchingController;
use crate::game::GameSession;
use crate::navigator::{ActionTree, default_action_tree};
use crate::range::RangeManager;

verus! {

/// All the state of one analysis session.
pub struct Session {
    /// The per-player hand ranges.
    pub ranges: RangeManager,
    /// The standalone betting tree being edited.
    pub tree: ActionTree,
    /// The bunching precomputation controller.
    pub bunching: BunchingController,
    /// The solved-game model.
    pub game: GameSession,
}

impl Session {
    /// Whether every resource is in a lawful state.
    pub open spec fn wf(&self) -> bool {
        &&& self.ranges.wf()
        &&& self.tree.wf()
        &&& self.bunching.wf()
        &&& self.game.wf()
    }

    /// Whether every resource holds its fresh default: all-zero ranges, the
    /// fallback tree at its root, no bunching model, no built game.
    pub open spec fn is_fresh(&self) -> bool {
        &&& forall|p: int, i: int|
            0 <= p < 6 && 0 <= i < 169 ==> #[trigger] self.ranges.grid(p)[i] == 0
        &&& self.tree.matches_grammar()
        &&& self.tree.spec_path().len() == 0
        &&& !self.bunching.spec_has_model()
        &&& !self.game.spec_built()
        &&& !self.game.spec_allocated()
    }

    /// A fresh session.
    pub fn new() -> (r: Session)
        ensures
            r.wf(),
            r.is_fresh(),
    {
        Session {
            ranges: RangeManager::new(),
            tree: default_action_tree(),
            bunching: BunchingController::new(),
            game: GameSession::new(),
        }
    }

    /// Replaces every resource with a fresh default in one call: after it
    /// returns, no trace of the previous session is observable.
    pub fn reset(&mut self)
        ensures
            final(self).wf(),
            final(self).is_fresh(),
    {
        *self = Session::new();
    }
}

} // verus!
