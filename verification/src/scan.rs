//! One scan of the matrix, as a run of line operations.
//!
//! A scan takes each row in turn: it drives the row to the active level, waits
//! for the line to settle, samples every column, and returns the row to the
//! inactive level before it goes on. The run names one operation at a time;
//! the caller performs it and hands back the outcome.

use vstd::prelude::*;
use crate::bits::{clear_bit_at, set_bit_at, with_bit_cleared, with_bit_set};
use crate::line::{answers, Action, Event, HardwareAccessError, ACTIVE, INACTIVE};
use crate::scanner::{Matrix, MatrixScanner};

verus! {

/// Where a scan stands within the row it is working on.
#[derive(Clone, Copy, PartialEq, Eq, Debug, Structural)]
pub enum Phase {
    /// The row is about to be driven to the active level.
    Drive,
    /// The row is driven and has yet to settle.
    Settle,
    /// The row has settled and a column is about to be sampled.
    Sample,
    /// Every column is sampled and the row is about to be released.
    Release,
}

/// The state of a scan between two operations.
pub struct ScanState {
    /// The row being worked on; the number of rows once the scan is through.
    pub row: int,
    /// The column to sample next; 0 outside the sampling phase.
    pub col: int,
    pub phase: Phase,
    /// The keys found pressed so far.
    pub keymap: u32,
    /// Whether the operation at this point was refused.
    pub failed: bool,
}

/// `keymap` with the key at `index` marked as pressed or as released. A key
/// whose index the bitmask cannot hold leaves it unchanged.
pub open spec fn with_key(keymap: u32, index: int, pressed: bool) -> u32 {
    if 0 <= index <= u8::MAX {
        if pressed {
            with_bit_set(keymap, index as u8)
        } else {
            with_bit_cleared(keymap, index as u8)
        }
    } else {
        keymap
    }
}

impl Matrix {
    /// The state in which every scan starts: at the first row, with no key
    /// found pressed.
    pub open spec fn scan_start(self) -> ScanState {
        ScanState { row: 0, col: 0, phase: Phase::Drive, keymap: 0, failed: false }
    }

    /// The states that a scan of this matrix passes through.
    pub open spec fn scan_admits(self, s: ScanState) -> bool {
        &&& 0 <= s.row <= self.n_rows()
        &&& s.phase is Sample ==> 0 <= s.col < self.n_cols()
        &&& !(s.phase is Sample) ==> s.col == 0
        &&& s.row == self.n_rows() ==> s.phase is Drive && !s.failed
    }

    /// The number of operations of a scan that nothing interrupts: three for
    /// each row and one more for each key.
    pub open spec fn scan_length(self) -> int {
        self.n_rows() * (self.n_cols() + 3)
    }

    /// Whether the scan has gone through every row.
    pub open spec fn scan_through(self, s: ScanState) -> bool {
        s.row >= self.n_rows()
    }

    /// The operation that belongs to the point at which `s` stands.
    pub open spec fn scan_action(self, s: ScanState) -> Action {
        match s.phase {
            Phase::Drive => Action::SetLevel { address: self.rows[s.row], level: ACTIVE },
            Phase::Settle => Action::Sleep { micros: self.settle_micros },
            Phase::Sample => Action::ReadLevel { address: self.cols[s.col] },
            Phase::Release => Action::SetLevel { address: self.rows[s.row], level: INACTIVE },
        }
    }

    /// The operation that the scan waits for, if it is still under way.
    pub open spec fn scan_pending(self, s: ScanState) -> Option<Action> {
        if s.failed || self.scan_through(s) {
            None
        } else {
            Some(self.scan_action(s))
        }
    }

    /// How the scan ended, if it has: with the keys found pressed, or with the
    /// operation that was refused.
    pub open spec fn scan_outcome(self, s: ScanState) -> Option<Result<u32, HardwareAccessError>> {
        if s.failed {
            Some(Err(HardwareAccessError { operation: self.scan_action(s) }))
        } else if self.scan_through(s) {
            Some(Ok(s.keymap))
        } else {
            None
        }
    }

    /// The state after the pending operation was answered by `event`.
    ///
    /// A scan that has ended stays as it is. An event that does not answer the
    /// operation stops the scan where it stands. Otherwise the scan moves on by
    /// one operation, and a sampled column writes its key: pressed if the
    /// column was found at the active level, released if not.
    pub open spec fn scan_next(self, s: ScanState, event: Event) -> ScanState {
        if self.scan_pending(s) is None {
            s
        } else if !answers(self.scan_action(s), event) {
            ScanState { failed: true, ..s }
        } else {
            match s.phase {
                Phase::Drive => ScanState { phase: Phase::Settle, ..s },
                Phase::Settle => if self.n_cols() == 0 {
                    ScanState { phase: Phase::Release, ..s }
                } else {
                    ScanState { phase: Phase::Sample, col: 0, ..s }
                },
                Phase::Sample => {
                    let keymap = with_key(
                        s.keymap,
                        self.key_index(s.row, s.col),
                        event == Event::Sampled(ACTIVE),
                    );
                    if s.col + 1 < self.n_cols() {
                        ScanState { col: s.col + 1, keymap, ..s }
                    } else {
                        ScanState { phase: Phase::Release, col: 0, keymap, ..s }
                    }
                },
                Phase::Release => ScanState { row: s.row + 1, col: 0, phase: Phase::Drive, ..s },
            }
        }
    }
}

/// A refusal ends the scan for good: the scan reports the refused operation,
/// asks for nothing more, and no later event moves it.
pub proof fn lemma_scan_refusal_is_final(m: Matrix, s: ScanState, event: Event, later: Event)
    requires
        m.scan_pending(s) is Some,
        !answers(m.scan_action(s), event),
    ensures
        m.scan_outcome(m.scan_next(s, event)) == Some(
            Err::<u32, HardwareAccessError>(HardwareAccessError { operation: m.scan_action(s) }),
        ),
        m.scan_pending(m.scan_next(s, event)) is None,
        m.scan_next(m.scan_next(s, event), later) == m.scan_next(s, event),
{
}

/// A scan under way.
pub struct Scan<'a> {
    scanner: &'a MatrixScanner,
    row: usize,
    col: usize,
    phase: Phase,
    keymap: u32,
    failed: bool,
}

impl<'a> View for Scan<'a> {
    type V = ScanState;

    closed spec fn view(&self) -> ScanState {
        ScanState {
            row: self.row as int,
            col: self.col as int,
            phase: self.phase,
            keymap: self.keymap,
            failed: self.failed,
        }
    }
}

impl MatrixScanner {
    /// Begins a scan. The scan has the scanner to itself: as long as it lasts
    /// no other run can begin, so the operations of two runs never mix.
    pub fn scan(&mut self) -> (run: Scan<'_>)
        ensures
            run.matrix() == old(self)@,
            run@ == old(self)@.scan_start(),
            final(self)@ == old(self)@,
    {
        proof {
            use_type_invariant(&*self);
        }
        Scan { scanner: &*self, row: 0, col: 0, phase: Phase::Drive, keymap: 0, failed: false }
    }
}

impl<'a> Scan<'a> {
    #[verifier::type_invariant]
    spec fn inv(&self) -> bool {
        self.scanner@.wf() && self.scanner@.scan_admits(self@)
    }

    /// The matrix that is being scanned.
    pub closed spec fn matrix(&self) -> Matrix {
        self.scanner@
    }

    /// The operation to perform next; none once the scan has ended.
    pub fn pending(&self) -> (action: Option<Action>)
        ensures
            action == self.matrix().scan_pending(self@),
            self.matrix().wf(),
            self.matrix().scan_admits(self@),
    {
        proof {
            use_type_invariant(self);
        }
        if self.failed || self.row >= self.scanner.n_rows() {
            None
        } else {
            Some(self.action())
        }
    }

    /// How the scan ended: with the bitmask of the keys found pressed, or with
    /// the operation that was refused; nothing while the scan is under way.
    pub fn outcome(&self) -> (outcome: Option<Result<u32, HardwareAccessError>>)
        ensures
            outcome == self.matrix().scan_outcome(self@),
    {
        proof {
            use_type_invariant(self);
        }
        if self.failed {
            Some(Err(HardwareAccessError { operation: self.action() }))
        } else if self.row >= self.scanner.n_rows() {
            Some(Ok(self.keymap))
        } else {
            None
        }
    }

    /// Takes the outcome of the pending operation and moves on.
    pub fn step(&mut self, event: Event)
        ensures
            final(self).matrix() == old(self).matrix(),
            final(self)@ == old(self).matrix().scan_next(old(self)@, event),
    {
        proof {
            use_type_invariant(&*self);
        }
        let n_rows = self.scanner.n_rows();
        let n_cols = self.scanner.n_cols();
        if self.failed || self.row >= n_rows {
            return ;
        }
        match (self.phase, event) {
            (Phase::Drive, Event::Done) => {
                self.phase = Phase::Settle;
            },
            (Phase::Settle, Event::Done) => {
                if n_cols == 0 {
                    self.phase = Phase::Release;
                } else {
                    self.phase = Phase::Sample;
                }
            },
            (Phase::Sample, Event::Sampled(level)) => {
                let index = self.key_index();
                let mut keymap = self.keymap;
                if level == ACTIVE {
                    set_bit_at(&mut keymap, index);
                } else {
                    clear_bit_at(&mut keymap, index);
                }
                self.keymap = keymap;
                if self.col + 1 < n_cols {
                    self.col = self.col + 1;
                } else {
                    self.col = 0;
                    self.phase = Phase::Release;
                }
            },
            (Phase::Release, Event::Done) => {
                self.phase = Phase::Drive;
                self.row = self.row + 1;
            },
            _ => {
                self.failed = true;
            },
        }
    }

    /// The operation at the point where the scan stands.
    fn action(&self) -> (action: Action)
        requires
            self.row < self.scanner@.n_rows(),
        ensures
            action == self.scanner@.scan_action(self@),
    {
        proof {
            use_type_invariant(self);
        }
        match self.phase {
            Phase::Drive => Action::SetLevel {
                address: self.scanner.row_address(self.row),
                level: ACTIVE,
            },
            Phase::Settle => Action::Sleep { micros: self.scanner.settle_micros() },
            Phase::Sample => Action::ReadLevel { address: self.scanner.col_address(self.col) },
            Phase::Release => Action::SetLevel {
                address: self.scanner.row_address(self.row),
                level: INACTIVE,
            },
        }
    }

    /// The index of the key that is about to be sampled.
    fn key_index(&self) -> (index: u8)
        requires
            self.phase is Sample,
            self.row < self.scanner@.n_rows(),
        ensures
            index == self.scanner@.key_index(self.row as int, self.col as int),
    {
        proof {
            use_type_invariant(self);
        }
        self.scanner.key_index(self.row, self.col)
    }
}

} // verus!
