//! Initialization of the lines, as a run of line operations.
//!
//! Every column becomes a sensed input that is pulled to the inactive level,
//! so that an open key reads as released. Every row becomes a driven output
//! and is set to the inactive level at once. The first refusal ends the run:
//! no further line is touched.

use vstd::prelude::*;
use crate::line::{answers, Action, Event, HardwareAccessError, IDLE_BIAS, INACTIVE};
use crate::scanner::{Matrix, MatrixScanner};

verus! {

/// The part of the initialization that a run is in.
#[derive(Clone, Copy, PartialEq, Eq, Debug, Structural)]
pub enum Stage {
    /// A column is about to become an input.
    Columns,
    /// A row is about to become an output.
    RowMode,
    /// A row that has just become an output is about to be set to the inactive
    /// level.
    RowLevel,
}

/// The state of an initialization between two operations.
pub struct InitState {
    pub stage: Stage,
    /// The column or row being worked on; the number of rows once the run is
    /// through.
    pub index: int,
    /// Whether the operation at this point was refused.
    pub failed: bool,
}

impl Matrix {
    /// The state in which every initialization starts: at the first column,
    /// or at the first row where there is no column.
    pub open spec fn init_start(self) -> InitState {
        if self.n_cols() == 0 {
            InitState { stage: Stage::RowMode, index: 0, failed: false }
        } else {
            InitState { stage: Stage::Columns, index: 0, failed: false }
        }
    }

    /// The states that an initialization of this matrix passes through.
    pub open spec fn init_admits(self, s: InitState) -> bool {
        match s.stage {
            Stage::Columns => 0 <= s.index < self.n_cols(),
            Stage::RowMode => 0 <= s.index <= self.n_rows() && (s.index == self.n_rows()
                ==> !s.failed),
            Stage::RowLevel => 0 <= s.index < self.n_rows(),
        }
    }

    /// The number of operations of an initialization that nothing
    /// interrupts: one for each column and two for each row.
    pub open spec fn init_length(self) -> int {
        self.n_cols() + 2 * self.n_rows()
    }

    /// Whether every line has been initialized.
    pub open spec fn init_through(self, s: InitState) -> bool {
        s.stage is RowMode && s.index >= self.n_rows()
    }

    /// The operation that belongs to the point at which `s` stands.
    pub open spec fn init_action(self, s: InitState) -> Action {
        match s.stage {
            Stage::Columns => Action::ConfigureInput {
                address: self.cols[s.index],
                bias: IDLE_BIAS,
            },
            Stage::RowMode => Action::ConfigureOutput { address: self.rows[s.index] },
            Stage::RowLevel => Action::SetLevel { address: self.rows[s.index], level: INACTIVE },
        }
    }

    /// The operation that the initialization waits for, if it is still under
    /// way.
    pub open spec fn init_pending(self, s: InitState) -> Option<Action> {
        if s.failed || self.init_through(s) {
            None
        } else {
            Some(self.init_action(s))
        }
    }

    /// How the initialization ended, if it has: with every line set up, or
    /// with the operation that was refused.
    pub open spec fn init_outcome(self, s: InitState) -> Option<Result<(), HardwareAccessError>> {
        if s.failed {
            Some(Err(HardwareAccessError { operation: self.init_action(s) }))
        } else if self.init_through(s) {
            Some(Ok(()))
        } else {
            None
        }
    }

    /// The state after the pending operation was answered by `event`.
    ///
    /// A run that has ended stays as it is. An event that does not answer the
    /// operation stops the run where it stands. Otherwise the run moves on by
    /// one operation: through the columns, then through the rows, each row
    /// first made an output and then set to the inactive level.
    pub open spec fn init_next(self, s: InitState, event: Event) -> InitState {
        if self.init_pending(s) is None {
            s
        } else if !answers(self.init_action(s), event) {
            InitState { failed: true, ..s }
        } else {
            match s.stage {
                Stage::Columns => if s.index + 1 < self.n_cols() {
                    InitState { index: s.index + 1, ..s }
                } else {
                    InitState { stage: Stage::RowMode, index: 0, ..s }
                },
                Stage::RowMode => InitState { stage: Stage::RowLevel, ..s },
                Stage::RowLevel => InitState { stage: Stage::RowMode, index: s.index + 1, ..s },
            }
        }
    }
}

/// A refusal ends the initialization for good: the run reports the refused
/// operation, asks for nothing more, and no later event moves it.
pub proof fn lemma_init_refusal_is_final(m: Matrix, s: InitState, event: Event, later: Event)
    requires
        m.init_pending(s) is Some,
        !answers(m.init_action(s), event),
    ensures
        m.init_outcome(m.init_next(s, event)) == Some(
            Err::<(), HardwareAccessError>(HardwareAccessError { operation: m.init_action(s) }),
        ),
        m.init_pending(m.init_next(s, event)) is None,
        m.init_next(m.init_next(s, event), later) == m.init_next(s, event),
{
}

/// An initialization under way.
pub struct Initialization<'a> {
    scanner: &'a MatrixScanner,
    stage: Stage,
    index: usize,
    failed: bool,
}

impl<'a> View for Initialization<'a> {
    type V = InitState;

    closed spec fn view(&self) -> InitState {
        InitState { stage: self.stage, index: self.index as int, failed: self.failed }
    }
}

impl MatrixScanner {
    /// Begins the initialization of the lines. The run has the scanner to
    /// itself: as long as it lasts no other run can begin.
    pub fn initialize(&mut self) -> (run: Initialization<'_>)
        ensures
            run.matrix() == old(self)@,
            run@ == old(self)@.init_start(),
            final(self)@ == old(self)@,
    {
        let stage = if self.n_cols() == 0 {
            Stage::RowMode
        } else {
            Stage::Columns
        };
        Initialization { scanner: &*self, stage, index: 0, failed: false }
    }
}

impl<'a> Initialization<'a> {
    #[verifier::type_invariant]
    spec fn inv(&self) -> bool {
        self.scanner@.wf() && self.scanner@.init_admits(self@)
    }

    /// The matrix whose lines are being initialized.
    pub closed spec fn matrix(&self) -> Matrix {
        self.scanner@
    }

    /// The operation to perform next; none once the run has ended.
    pub fn pending(&self) -> (action: Option<Action>)
        ensures
            action == self.matrix().init_pending(self@),
            self.matrix().wf(),
            self.matrix().init_admits(self@),
    {
        proof {
            use_type_invariant(self);
        }
        if self.failed || self.through() {
            None
        } else {
            Some(self.action())
        }
    }

    /// How the run ended: with every line set up, or with the operation that
    /// was refused; nothing while the run is under way.
    pub fn outcome(&self) -> (outcome: Option<Result<(), HardwareAccessError>>)
        ensures
            outcome == self.matrix().init_outcome(self@),
    {
        proof {
            use_type_invariant(self);
        }
        if self.failed {
            Some(Err(HardwareAccessError { operation: self.action() }))
        } else if self.through() {
            Some(Ok(()))
        } else {
            None
        }
    }

    /// Takes the outcome of the pending operation and moves on.
    pub fn step(&mut self, event: Event)
        ensures
            final(self).matrix() == old(self).matrix(),
            final(self)@ == old(self).matrix().init_next(old(self)@, event),
    {
        proof {
            use_type_invariant(&*self);
        }
        if self.failed || self.through() {
            return ;
        }
        match (self.stage, event) {
            (Stage::Columns, Event::Done) => {
                if self.index + 1 < self.scanner.n_cols() {
                    self.index = self.index + 1;
                } else {
                    self.index = 0;
                    self.stage = Stage::RowMode;
                }
            },
            (Stage::RowMode, Event::Done) => {
                self.stage = Stage::RowLevel;
            },
            (Stage::RowLevel, Event::Done) => {
                self.stage = Stage::RowMode;
                self.index = self.index + 1;
            },
            _ => {
                self.failed = true;
            },
        }
    }

    /// Whether every line has been initialized.
    fn through(&self) -> (through: bool)
        ensures
            through == self.scanner@.init_through(self@),
    {
        match self.stage {
            Stage::RowMode => self.index >= self.scanner.n_rows(),
            _ => false,
        }
    }

    /// The operation at the point where the run stands.
    fn action(&self) -> (action: Action)
        requires
            !self.scanner@.init_through(self@),
        ensures
            action == self.scanner@.init_action(self@),
    {
        proof {
            use_type_invariant(self);
        }
        match self.stage {
            Stage::Columns => Action::ConfigureInput {
                address: self.scanner.col_address(self.index),
                bias: IDLE_BIAS,
            },
            Stage::RowMode => Action::ConfigureOutput {
                address: self.scanner.row_address(self.index),
            },
            Stage::RowLevel => Action::SetLevel {
                address: self.scanner.row_address(self.index),
                level: INACTIVE,
            },
        }
    }
}

} // verus!
