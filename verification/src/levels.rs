//! The levels of the lines while a run goes on, and the rule that they obey:
//! whenever a column is sampled, one row line is at the active level and no
//! other.

use vstd::prelude::*;
use crate::init::{InitState, Stage};
use crate::line::{answers, Action, Event, HardwareAccessError, Level, ACTIVE, INACTIVE};
use crate::scan::{Phase, ScanState};
use crate::scanner::Matrix;

verus! {

/// The levels to which the lines were last driven, after `action` was
/// performed on lines last driven to the levels `lines`.
pub open spec fn driven(lines: Map<u8, Level>, action: Action) -> Map<u8, Level> {
    match action {
        Action::SetLevel { address, level } => lines.insert(address, level),
        _ => lines,
    }
}

/// The levels to which the lines were last driven, after `action` was
/// attempted with the outcome `event`: a refused operation leaves the lines as
/// they were.
pub open spec fn attempted(lines: Map<u8, Level>, action: Action, event: Event) -> Map<u8, Level> {
    if answers(action, event) {
        driven(lines, action)
    } else {
        lines
    }
}

/// Whether the line at `address` was last driven to the active level.
pub open spec fn is_active(lines: Map<u8, Level>, address: u8) -> bool {
    lines.dom().contains(address) && lines[address] == ACTIVE
}

impl Matrix {
    /// The row lines that are at the active level.
    pub open spec fn active_rows(self, lines: Map<u8, Level>) -> Set<u8> {
        Set::new(|address: u8| self.rows.contains(address) && is_active(lines, address))
    }

    /// Whether every row line is driven to the inactive level.
    pub open spec fn rows_at_rest(self, lines: Map<u8, Level>) -> bool {
        forall|row: int|
            0 <= row < self.n_rows() ==> lines.dom().contains(#[trigger] self.rows[row])
                && lines[self.rows[row]] == INACTIVE
    }

    /// What a scan keeps true of the row lines from one operation to the next:
    /// between the drive and the release of a row, the line of that row is the
    /// one active row line; at any other time no row line is active.
    pub open spec fn scan_keeps(self, s: ScanState, lines: Map<u8, Level>) -> bool {
        if s.phase is Drive {
            self.active_rows(lines) == Set::<u8>::empty()
        } else {
            self.active_rows(lines) == set![self.rows[s.row]]
        }
    }
}

/// Row lines that are all driven to the inactive level hold no active line.
pub proof fn lemma_rest_has_no_active_row(m: Matrix, lines: Map<u8, Level>)
    requires
        m.rows_at_rest(lines),
    ensures
        m.active_rows(lines) == Set::<u8>::empty(),
{
    assert forall|address: u8| !m.active_rows(lines).contains(address) by {
        if m.rows.contains(address) {
            let row = choose|row: int| 0 <= row < m.rows.len() && m.rows[row] == address;
            assert(lines[m.rows[row]] == INACTIVE);
        }
    }
    assert(m.active_rows(lines) =~= Set::<u8>::empty());
}

/// A scan that starts with no row line active starts as `scan_keeps` asks.
pub proof fn lemma_scan_starts_kept(m: Matrix, lines: Map<u8, Level>)
    requires
        m.active_rows(lines) == Set::<u8>::empty(),
    ensures
        m.scan_keeps(m.scan_start(), lines),
{
}

/// Every operation of a scan, performed or refused, keeps `scan_keeps`.
pub proof fn lemma_scan_step_keeps(m: Matrix, s: ScanState, lines: Map<u8, Level>, event: Event)
    requires
        m.scan_admits(s),
        m.scan_keeps(s, lines),
        m.scan_pending(s) is Some,
    ensures
        m.scan_admits(m.scan_next(s, event)),
        m.scan_keeps(m.scan_next(s, event), attempted(lines, m.scan_action(s), event)),
{
    let action = m.scan_action(s);
    let after = attempted(lines, action, event);
    let row_line = m.rows[s.row];
    assert(m.rows.contains(row_line));
    if answers(action, event) {
        match s.phase {
            Phase::Drive => {
                assert forall|address: u8|
                    m.active_rows(after).contains(address) <==> address == row_line by {
                    if address != row_line {
                        assert(!m.active_rows(lines).contains(address));
                    }
                }
                assert(m.active_rows(after) =~= set![row_line]);
            },
            Phase::Release => {
                assert forall|address: u8| !m.active_rows(after).contains(address) by {
                    if address != row_line {
                        assert(!m.active_rows(lines).contains(address));
                    }
                }
                assert(m.active_rows(after) =~= Set::<u8>::empty());
            },
            _ => {},
        }
    }
}

/// At every sampling instant of a scan exactly one row line is at the active
/// level: the line of the row that is being scanned.
pub proof fn lemma_one_row_active_at_sampling(m: Matrix, s: ScanState, lines: Map<u8, Level>)
    requires
        m.scan_admits(s),
        m.scan_keeps(s, lines),
        m.scan_pending(s) matches Some(action) && action is ReadLevel,
    ensures
        m.active_rows(lines) == set![m.rows[s.row]],
        m.active_rows(lines).len() == 1,
{
}

/// Once a scan has gone through every row, no row line is at the active
/// level; a matrix without rows never has one.
pub proof fn lemma_no_row_active_after_scan(m: Matrix, s: ScanState, lines: Map<u8, Level>)
    requires
        m.scan_admits(s),
        m.scan_keeps(s, lines),
        m.scan_outcome(s) matches Some(outcome) && outcome is Ok,
    ensures
        m.active_rows(lines) == Set::<u8>::empty(),
        m.active_rows(lines).len() == 0,
{
}

/// What a driver reports of `action` when it refuses every operation on a
/// line in `claimed` and carries out every other.
pub open spec fn claim_answer(claimed: Set<u8>, action: Action) -> Event {
    if action.spec_address() matches Some(address) && claimed.contains(address) {
        Event::Failed
    } else {
        Event::Done
    }
}

impl Matrix {
    /// Whether the line at `address` is a row line or a column line of the
    /// matrix.
    pub open spec fn has_line(self, address: u8) -> bool {
        self.rows.contains(address) || self.cols.contains(address)
    }

    /// The number of operations that an initialization in state `s` has
    /// before it.
    spec fn init_remaining(self, s: InitState) -> int {
        match s.stage {
            Stage::Columns => self.n_cols() - s.index + 2 * self.n_rows(),
            Stage::RowMode => 2 * (self.n_rows() - s.index),
            Stage::RowLevel => 2 * (self.n_rows() - s.index) - 1,
        }
    }

    /// The state of the initialization and the levels of the lines after at
    /// most `steps` operations, starting from `s` and `lines`, against a
    /// driver that refuses the lines in `claimed`.
    pub open spec fn init_run(
        self,
        claimed: Set<u8>,
        s: InitState,
        lines: Map<u8, Level>,
        steps: nat,
    ) -> (InitState, Map<u8, Level>)
        decreases steps,
    {
        if steps == 0 || self.init_pending(s) is None {
            (s, lines)
        } else {
            let action = self.init_action(s);
            let event = claim_answer(claimed, action);
            self.init_run(
                claimed,
                self.init_next(s, event),
                attempted(lines, action, event),
                (steps - 1) as nat,
            )
        }
    }

    /// What an initialization keeps true of the row lines: the rows that it
    /// has been through are driven to the inactive level.
    spec fn init_keeps(self, s: InitState, lines: Map<u8, Level>) -> bool {
        forall|row: int|
            0 <= row < s.index && !(s.stage is Columns) ==> lines.dom().contains(
                #[trigger] self.rows[row],
            ) && lines[self.rows[row]] == INACTIVE
    }

    /// Whether a line in `claimed` is among those that an initialization in
    /// state `s` has yet to touch.
    spec fn init_meets_claim(self, claimed: Set<u8>, s: InitState) -> bool {
        ||| exists|col: int|
            s.stage is Columns && s.index <= col < self.n_cols() && claimed.contains(
                #[trigger] self.cols[col],
            )
        ||| exists|row: int|
            (s.stage is Columns || s.index <= row) && 0 <= row < self.n_rows() && claimed.contains(
                #[trigger] self.rows[row],
            )
    }
}

/// An initialization that meets no claimed line, given operations enough, sets
/// up every line and leaves every row line driven to the inactive level.
proof fn lemma_init_run_completes(
    m: Matrix,
    claimed: Set<u8>,
    s: InitState,
    lines: Map<u8, Level>,
    steps: nat,
)
    requires
        m.init_admits(s),
        !s.failed,
        m.init_keeps(s, lines),
        !m.init_meets_claim(claimed, s),
        steps >= m.init_remaining(s),
    ensures
        m.init_outcome(m.init_run(claimed, s, lines, steps).0) == Some(
            Ok::<(), HardwareAccessError>(()),
        ),
        m.rows_at_rest(m.init_run(claimed, s, lines, steps).1),
    decreases steps,
{
    if m.init_pending(s) is Some {
        let action = m.init_action(s);
        let event = claim_answer(claimed, action);
        let next = m.init_next(s, event);
        let after = attempted(lines, action, event);
        assert(event == Event::Done) by {
            match s.stage {
                Stage::Columns => {
                    assert(!claimed.contains(m.cols[s.index]));
                },
                _ => {
                    assert(!claimed.contains(m.rows[s.index]));
                },
            }
        }
        assert(m.init_keeps(next, after));
        lemma_init_run_completes(m, claimed, next, after, (steps - 1) as nat);
    }
}

/// A whole initialization against a driver on which no line of the matrix is
/// claimed succeeds and leaves every row line driven to the inactive level,
/// whatever the levels were before.
pub proof fn lemma_init_sets_rows_at_rest(
    m: Matrix,
    claimed: Set<u8>,
    lines: Map<u8, Level>,
    steps: nat,
)
    requires
        forall|address: u8| m.has_line(address) ==> !claimed.contains(address),
        steps >= m.init_length(),
    ensures
        m.init_outcome(m.init_run(claimed, m.init_start(), lines, steps).0) == Some(
            Ok::<(), HardwareAccessError>(()),
        ),
        m.rows_at_rest(m.init_run(claimed, m.init_start(), lines, steps).1),
        m.active_rows(m.init_run(claimed, m.init_start(), lines, steps).1) == Set::<u8>::empty(),
{
    let start = m.init_start();
    assert(!m.init_meets_claim(claimed, start)) by {
        assert forall|col: int| 0 <= col < m.n_cols() implies !claimed.contains(
            #[trigger] m.cols[col],
        ) by {
            assert(m.cols.contains(m.cols[col]));
        }
        assert forall|row: int| 0 <= row < m.n_rows() implies !claimed.contains(
            #[trigger] m.rows[row],
        ) by {
            assert(m.rows.contains(m.rows[row]));
        }
    }
    lemma_init_run_completes(m, claimed, start, lines, steps);
    lemma_rest_has_no_active_row(m, m.init_run(claimed, start, lines, steps).1);
}

/// An initialization that has a claimed line before it, given operations
/// enough, ends with the refusal of an operation on a claimed line.
proof fn lemma_init_run_is_refused(
    m: Matrix,
    claimed: Set<u8>,
    s: InitState,
    lines: Map<u8, Level>,
    steps: nat,
)
    requires
        m.init_admits(s),
        !s.failed,
        m.init_meets_claim(claimed, s),
        steps >= m.init_remaining(s),
    ensures
        m.init_outcome(m.init_run(claimed, s, lines, steps).0) matches Some(Err(refusal))
            && refusal.operation.spec_address() matches Some(address) && claimed.contains(address),
    decreases steps,
{
    let action = m.init_action(s);
    let event = claim_answer(claimed, action);
    let next = m.init_next(s, event);
    let after = attempted(lines, action, event);
    assert(m.init_pending(s) is Some);
    if event == Event::Done {
        assert(m.init_meets_claim(claimed, next)) by {
            if exists|col: int|
                s.stage is Columns && s.index <= col < m.n_cols() && claimed.contains(
                    #[trigger] m.cols[col],
                ) {
                let col = choose|col: int|
                    s.stage is Columns && s.index <= col < m.n_cols() && claimed.contains(
                        #[trigger] m.cols[col],
                    );
                assert(col != s.index);
                assert(next.stage is Columns && next.index <= col < m.n_cols() && claimed.contains(
                    m.cols[col],
                ));
            } else {
                let row = choose|row: int|
                    (s.stage is Columns || s.index <= row) && 0 <= row < m.n_rows()
                        && claimed.contains(#[trigger] m.rows[row]);
                assert((next.stage is Columns || next.index <= row) && 0 <= row < m.n_rows()
                    && claimed.contains(m.rows[row]));
            }
        }
        lemma_init_run_is_refused(m, claimed, next, after, (steps - 1) as nat);
    } else {
        assert(m.init_pending(next) is None);
        assert(m.init_run(claimed, next, after, (steps - 1) as nat).0 == next);
    }
}

/// A whole initialization against a driver on which a line of the matrix is
/// claimed ends with the refusal of an operation on a claimed line, and goes
/// no further.
pub proof fn lemma_init_of_claimed_line_is_refused(
    m: Matrix,
    claimed: Set<u8>,
    lines: Map<u8, Level>,
    steps: nat,
)
    requires
        exists|address: u8| m.has_line(address) && claimed.contains(address),
        steps >= m.init_length(),
    ensures
        m.init_outcome(m.init_run(claimed, m.init_start(), lines, steps).0) matches Some(
            Err(refusal),
        ) && refusal.operation.spec_address() matches Some(address) && claimed.contains(address),
        m.init_pending(m.init_run(claimed, m.init_start(), lines, steps).0) is None,
{
    let start = m.init_start();
    let address = choose|address: u8| m.has_line(address) && claimed.contains(address);
    if m.rows.contains(address) {
        let row = choose|row: int| 0 <= row < m.rows.len() && m.rows[row] == address;
        assert((start.stage is Columns || start.index <= row) && 0 <= row < m.n_rows()
            && claimed.contains(m.rows[row]));
    } else {
        let col = choose|col: int| 0 <= col < m.cols.len() && m.cols[col] == address;
        assert(start.stage is Columns && start.index <= col < m.n_cols() && claimed.contains(
            m.cols[col],
        ));
    }
    lemma_init_run_is_refused(m, claimed, start, lines, steps);
}

} // verus!
