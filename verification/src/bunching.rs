//! The phased bunching precomputation controller.
//!
//! The bunching model is derived from the auxiliary opponent ranges and a
//! three-card board, and is precomputed in three phases.  Each phase runs a
//! preparation step and then one hundred one-percent units; the controller
//! advances by exactly one step per `progress` call so a caller can poll it
//! for a progress bar.  State is the pair `(phase, percent)` with phases
//! visited strictly in order `0, 1, 2, 3`; once `(3, 100)` is reached the
//! controller is immutable and further calls are no-ops.
//!
//! The numeric work of each unit belongs to the solve engine outside this
//! library; the controller owns the scheduling decision: which step to run
//! next and what the state becomes.

use vstd::prelude::*;

use crate::range::RangeManager;

verus! {

/// Why a bunching request was refused.
#[derive(Clone, Copy, PartialEq, Eq, Structural, Debug)]
pub enum BunchingError {
    /// The board handed to `init` has fewer than three cards.
    BoardTooShort,
    /// `progress` was called while no model is initialized.
    NoModel,
}

impl BunchingError {
    /// A human-readable description of the failure.
    pub fn message(&self) -> (s: String)
        ensures
            self is BoardTooShort ==> s@ == "Board must have at least 3 cards"@,
            self is NoModel ==> s@ == "No bunching model is initialized"@,
    {
        match self {
            BunchingError::BoardTooShort => "Board must have at least 3 cards".to_owned(),
            BunchingError::NoModel => "No bunching model is initialized".to_owned(),
        }
    }
}

/// The single step a `progress` call performs.
#[derive(Clone, Copy, PartialEq, Eq, Structural, Debug)]
pub enum BunchingStep {
    /// Preparation of phase 1.
    Phase1Prepare,
    /// One one-percent unit of phase 1.
    Phase1Unit,
    /// Preparation of phase 2.
    Phase2Prepare,
    /// One one-percent unit of phase 2.
    Phase2Unit,
    /// Preparation of phase 3.
    Phase3Prepare,
    /// One one-percent unit of phase 3.
    Phase3Unit,
    /// Nothing: the computation is complete.
    Done,
}

/// Whether `(phase, percent)` is a reachable controller state.
pub open spec fn bunching_state_wf(phase: int, percent: int) -> bool {
    &&& 0 <= phase <= 3
    &&& 0 <= percent <= 100
    &&& phase == 0 ==> percent == 0
}

/// The phase after one step.
pub open spec fn spec_next_phase(phase: int, percent: int) -> int {
    if phase == 0 || (percent == 100 && phase < 3) {
        phase + 1
    } else {
        phase
    }
}

/// The percent counter after one step.
pub open spec fn spec_next_percent(phase: int, percent: int) -> int {
    if phase == 0 || percent == 100 {
        if phase == 3 {
            100
        } else {
            0
        }
    } else {
        percent + 1
    }
}

/// The step a `progress` call performs from a given state.
pub open spec fn spec_step_of(phase: int, percent: int) -> BunchingStep {
    if phase == 0 {
        BunchingStep::Phase1Prepare
    } else if phase == 1 {
        if percent < 100 {
            BunchingStep::Phase1Unit
        } else {
            BunchingStep::Phase2Prepare
        }
    } else if phase == 2 {
        if percent < 100 {
            BunchingStep::Phase2Unit
        } else {
            BunchingStep::Phase3Prepare
        }
    } else {
        if percent < 100 {
            BunchingStep::Phase3Unit
        } else {
            BunchingStep::Done
        }
    }
}

/// Progress is strictly forward: one step never skips a phase, the percent
/// counter grows one by one within a phase and resets on a phase change, and
/// the final state `(3, 100)` is a fixed point.
pub proof fn lemma_progress_monotone(phase: int, percent: int)
    requires
        bunching_state_wf(phase, percent),
    ensures
        bunching_state_wf(spec_next_phase(phase, percent), spec_next_percent(phase, percent)),
        spec_next_phase(phase, percent) == phase || spec_next_phase(phase, percent) == phase + 1,
        spec_next_phase(phase, percent) == phase + 1 ==> spec_next_percent(phase, percent) == 0,
        spec_next_phase(phase, percent) == phase && !(phase == 3 && percent == 100)
            ==> spec_next_percent(phase, percent) == percent + 1,
        phase == 3 && percent == 100 ==> spec_next_phase(phase, percent) == 3
            && spec_next_percent(phase, percent) == 100,
{
}

/// A phase's one-percent units run only inside that phase, and a phase is
/// entered only through its preparation step, taken at the end of the
/// previous phase.
pub proof fn lemma_phases_in_order(phase: int, percent: int)
    requires
        bunching_state_wf(phase, percent),
    ensures
        spec_step_of(phase, percent) == BunchingStep::Phase1Unit ==> phase == 1,
        spec_step_of(phase, percent) == BunchingStep::Phase2Unit ==> phase == 2,
        spec_step_of(phase, percent) == BunchingStep::Phase3Unit ==> phase == 3,
        spec_next_phase(phase, percent) == 1 && phase == 0 ==> spec_step_of(phase, percent)
            == BunchingStep::Phase1Prepare,
        spec_next_phase(phase, percent) == 2 && phase == 1 ==> spec_step_of(phase, percent)
            == BunchingStep::Phase2Prepare,
        spec_next_phase(phase, percent) == 3 && phase == 2 ==> spec_step_of(phase, percent)
            == BunchingStep::Phase3Prepare,
{
}

/// The scheduling decision of one `progress` call: the step to run and the
/// state after it.
pub fn bunching_next_state(phase: u8, percent: u8) -> (r: (BunchingStep, u8, u8))
    requires
        bunching_state_wf(phase as int, percent as int),
    ensures
        r.0 == spec_step_of(phase as int, percent as int),
        r.1 == spec_next_phase(phase as int, percent as int),
        r.2 == spec_next_percent(phase as int, percent as int),
{
    if phase == 0 {
        (BunchingStep::Phase1Prepare, 1, 0)
    } else if phase == 1 {
        if percent < 100 {
            (BunchingStep::Phase1Unit, 1, percent + 1)
        } else {
            (BunchingStep::Phase2Prepare, 2, 0)
        }
    } else if phase == 2 {
        if percent < 100 {
            (BunchingStep::Phase2Unit, 2, percent + 1)
        } else {
            (BunchingStep::Phase3Prepare, 3, 0)
        }
    } else {
        if percent < 100 {
            (BunchingStep::Phase3Unit, 3, percent + 1)
        } else {
            (BunchingStep::Done, 3, 100)
        }
    }
}

/// The per-session bunching controller: the control state of the phased
/// precomputation.
pub struct BunchingController {
    has_model: bool,
    phase: u8,
    percent: u8,
}

impl BunchingController {
    /// Whether a model is initialized.
    pub closed spec fn spec_has_model(&self) -> bool {
        self.has_model
    }

    /// The current phase.
    pub closed spec fn spec_phase(&self) -> int {
        self.phase as int
    }

    /// The current percent counter.
    pub closed spec fn spec_percent(&self) -> int {
        self.percent as int
    }

    /// Whether the controller is in a reachable state.
    pub open spec fn wf(&self) -> bool {
        &&& bunching_state_wf(self.spec_phase(), self.spec_percent())
        &&& !self.spec_has_model() ==> self.spec_phase() == 0 && self.spec_percent() == 0
    }

    /// Whether a model is initialized, executably.
    pub fn has_model(&self) -> (r: bool)
        ensures
            r == self.spec_has_model(),
    {
        self.has_model
    }

    /// The current phase and percent counter.
    pub fn state(&self) -> (r: (u8, u8))
        ensures
            r.0 as int == self.spec_phase(),
            r.1 as int == self.spec_percent(),
    {
        (self.phase, self.percent)
    }

    /// A fresh controller with no model.
    pub fn new() -> (r: BunchingController)
        ensures
            r.wf(),
            !r.spec_has_model(),
    {
        BunchingController { has_model: false, phase: 0, percent: 0 }
    }

    /// Derives a fresh model from the auxiliary opponent ranges and the
    /// first three cards of the board.  Fails when the board has fewer than
    /// three cards, and on failure the controller holds no model: a
    /// previously held model does not survive a failed initialization.
    pub fn init(&mut self, ranges: &RangeManager, board: &Vec<u8>) -> (r: Result<(), BunchingError>)
        requires
            old(self).wf(),
            ranges.wf(),
        ensures
            final(self).wf(),
            r is Ok <==> board@.len() >= 3,
            match r {
                Ok(()) => {
                    &&& final(self).spec_has_model()
                    &&& final(self).spec_phase() == 0
                    &&& final(self).spec_percent() == 0
                },
                Err(e) => {
                    &&& e == BunchingError::BoardTooShort
                    &&& !final(self).spec_has_model()
                },
            },
    {
        if board.len() < 3 {
            self.has_model = false;
            self.phase = 0;
            self.percent = 0;
            return Err(BunchingError::BoardTooShort);
        }
        self.has_model = true;
        self.phase = 0;
        self.percent = 0;
        Ok(())
    }

    /// Discards the model unconditionally; idempotent.
    pub fn clear(&mut self)
        ensures
            final(self).wf(),
            !final(self).spec_has_model(),
    {
        self.has_model = false;
        self.phase = 0;
        self.percent = 0;
    }

    /// Performs exactly one step of the precomputation: returns the step the
    /// caller must run and the new `(phase, percent)` state.  Fails, with
    /// nothing changed, when no model is initialized.
    pub fn progress(&mut self) -> (r: Result<(BunchingStep, u8, u8), BunchingError>)
        requires
            old(self).wf(),
        ensures
            final(self).wf(),
            match r {
                Ok((step, ph, pc)) => {
                    &&& old(self).spec_has_model()
                    &&& final(self).spec_has_model()
                    &&& step == spec_step_of(old(self).spec_phase(), old(self).spec_percent())
                    &&& ph == spec_next_phase(old(self).spec_phase(), old(self).spec_percent())
                    &&& pc == spec_next_percent(old(self).spec_phase(), old(self).spec_percent())
                    &&& final(self).spec_phase() == ph as int
                    &&& final(self).spec_percent() == pc as int
                },
                Err(e) => {
                    &&& e == BunchingError::NoModel
                    &&& !old(self).spec_has_model()
                    &&& *final(self) == *old(self)
                },
            },
    {
        if !self.has_model {
            return Err(BunchingError::NoModel);
        }
        let (step, ph, pc) = bunching_next_state(self.phase, self.percent);
        proof {
            lemma_progress_monotone(self.phase as int, self.percent as int);
        }
        self.phase = ph;
        self.percent = pc;
        Ok((step, ph, pc))
    }
}

} // verus!
