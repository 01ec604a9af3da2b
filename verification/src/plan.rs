//! The operations of a run, in the order in which they are asked for.
//!
//! What a driver answers decides how far a run goes, never what it does: the
//! operations of a run are a fixed list, and a run performs them from the
//! first on until one is refused or the list is through.

use vstd::prelude::*;
use crate::init::{InitState, Stage};
use crate::line::{answers, Action, Event, ACTIVE, IDLE_BIAS, INACTIVE};
use crate::scan::{Phase, ScanState};
use crate::scanner::Matrix;

verus! {

impl Matrix {
    /// The operations on one row of a scan: drive the row active, let it
    /// settle, sample every column in order, return the row to inactive.
    pub open spec fn row_plan(self, row: int) -> Seq<Action> {
        seq![
            Action::SetLevel { address: self.rows[row], level: ACTIVE },
            Action::Sleep { micros: self.settle_micros },
        ] + Seq::new(self.cols.len(), |col: int| Action::ReadLevel { address: self.cols[col] })
            + seq![Action::SetLevel { address: self.rows[row], level: INACTIVE }]
    }

    /// The operations of a scan on the first `n_rows` rows.
    pub open spec fn scan_plan_of(self, n_rows: nat) -> Seq<Action>
        decreases n_rows,
    {
        if n_rows == 0 {
            Seq::empty()
        } else {
            self.scan_plan_of((n_rows - 1) as nat) + self.row_plan(n_rows - 1)
        }
    }

    /// The operations of a scan: those on each row, row after row.
    pub open spec fn scan_plan(self) -> Seq<Action> {
        self.scan_plan_of(self.rows.len())
    }

    /// The number of operations that a scan in state `s` has behind it.
    pub open spec fn scan_position(self, s: ScanState) -> int {
        s.row * (self.n_cols() + 3) + match s.phase {
            Phase::Drive => 0,
            Phase::Settle => 1,
            Phase::Sample => 2 + s.col,
            Phase::Release => 2 + self.n_cols(),
        }
    }

    /// The operations that a scan in state `s` performs while the driver
    /// answers with `events`, one event for each operation.
    pub open spec fn scan_trace(self, s: ScanState, events: Seq<Event>) -> Seq<Action>
        decreases events.len(),
    {
        if events.len() == 0 || self.scan_pending(s) is None {
            Seq::empty()
        } else {
            seq![self.scan_action(s)] + self.scan_trace(
                self.scan_next(s, events[0]),
                events.drop_first(),
            )
        }
    }

    /// The operations of an initialization on the first `n_rows` rows: each
    /// row is made an output and set to the inactive level.
    pub open spec fn rows_plan_of(self, n_rows: nat) -> Seq<Action>
        decreases n_rows,
    {
        if n_rows == 0 {
            Seq::empty()
        } else {
            self.rows_plan_of((n_rows - 1) as nat) + seq![
                Action::ConfigureOutput { address: self.rows[n_rows - 1] },
                Action::SetLevel { address: self.rows[n_rows - 1], level: INACTIVE },
            ]
        }
    }

    /// The operations of an initialization: every column is made an input
    /// with the idle bias, then every row is set up.
    pub open spec fn init_plan(self) -> Seq<Action> {
        Seq::new(
            self.cols.len(),
            |col: int| Action::ConfigureInput { address: self.cols[col], bias: IDLE_BIAS },
        ) + self.rows_plan_of(self.rows.len())
    }

    /// The number of operations that an initialization in state `s` has
    /// behind it.
    pub open spec fn init_position(self, s: InitState) -> int {
        match s.stage {
            Stage::Columns => s.index,
            Stage::RowMode => self.n_cols() + 2 * s.index,
            Stage::RowLevel => self.n_cols() + 2 * s.index + 1,
        }
    }

    /// The operations that an initialization in state `s` performs while the
    /// driver answers with `events`, one event for each operation.
    pub open spec fn init_trace(self, s: InitState, events: Seq<Event>) -> Seq<Action>
        decreases events.len(),
    {
        if events.len() == 0 || self.init_pending(s) is None {
            Seq::empty()
        } else {
            seq![self.init_action(s)] + self.init_trace(
                self.init_next(s, events[0]),
                events.drop_first(),
            )
        }
    }
}

/// Whether `events` answer the operations of `plan` from the place `from` on,
/// one event for each operation: none of them is refused.
pub open spec fn none_refused(plan: Seq<Action>, from: int, events: Seq<Event>) -> bool {
    forall|i: int|
        0 <= i < events.len() && from + i < plan.len() ==> answers(
            plan[from + i],
            #[trigger] events[i],
        )
}

/// The scan of the first `n_rows` rows has `n_cols + 3` operations for each
/// row, and those of row `row` start at `row * (n_cols + 3)`.
proof fn lemma_scan_plan_rows(m: Matrix, n_rows: nat, row: int, k: int)
    requires
        0 <= row < n_rows,
        0 <= k < m.n_cols() + 3,
    ensures
        m.scan_plan_of(n_rows).len() == n_rows * (m.n_cols() + 3),
        0 <= row * (m.n_cols() + 3) + k < m.scan_plan_of(n_rows).len(),
        m.scan_plan_of(n_rows)[row * (m.n_cols() + 3) + k] == m.row_plan(row)[k],
    decreases n_rows,
{
    let width = m.n_cols() + 3;
    lemma_scan_plan_len(m, n_rows);
    lemma_scan_plan_len(m, (n_rows - 1) as nat);
    assert((n_rows - 1) * width == n_rows * width - width) by (nonlinear_arith);
    if row == n_rows - 1 {
    } else {
        lemma_scan_plan_rows(m, (n_rows - 1) as nat, row, k);
    }
}

/// The scan of the first `n_rows` rows has `n_cols + 3` operations for each
/// row.
proof fn lemma_scan_plan_len(m: Matrix, n_rows: nat)
    ensures
        m.scan_plan_of(n_rows).len() == n_rows * (m.n_cols() + 3),
    decreases n_rows,
{
    let width = m.n_cols() + 3;
    if n_rows > 0 {
        lemma_scan_plan_len(m, (n_rows - 1) as nat);
        assert((n_rows - 1) * width == n_rows * width - width) by (nonlinear_arith);
    } else {
        assert(0 * width == 0) by (nonlinear_arith);
    }
}

/// A scan that is under way asks for the operation of the plan at the place
/// where it stands.
pub proof fn lemma_scan_asks_by_plan(m: Matrix, s: ScanState)
    requires
        m.scan_admits(s),
        m.scan_pending(s) is Some,
    ensures
        0 <= m.scan_position(s) < m.scan_plan().len(),
        m.scan_plan()[m.scan_position(s)] == m.scan_action(s),
        m.scan_plan().len() == m.scan_length(),
{
    let k = m.scan_position(s) - s.row * (m.n_cols() + 3);
    lemma_scan_plan_rows(m, m.rows.len(), s.row, k);
}

/// An answered operation takes a scan to the next place of the plan; a refused
/// one ends it.
pub proof fn lemma_scan_moves_by_plan(m: Matrix, s: ScanState, event: Event)
    requires
        m.scan_admits(s),
        m.scan_pending(s) is Some,
    ensures
        m.scan_admits(m.scan_next(s, event)),
        answers(m.scan_action(s), event) ==> m.scan_position(m.scan_next(s, event))
            == m.scan_position(s) + 1 && !m.scan_next(s, event).failed,
        !answers(m.scan_action(s), event) ==> m.scan_pending(m.scan_next(s, event)) is None,
        m.scan_position(m.scan_next(s, event)) == m.scan_plan().len() ==> m.scan_pending(
            m.scan_next(s, event),
        ) is None,
{
    lemma_scan_plan_len(m, m.rows.len());
    assert((s.row + 1) * (m.n_cols() + 3) == s.row * (m.n_cols() + 3) + (m.n_cols() + 3))
        by (nonlinear_arith);
    let next = m.scan_next(s, event);
    if next.row < m.n_rows() {
        assert(next.row * (m.n_cols() + 3) + (m.n_cols() + 3) <= m.n_rows() * (m.n_cols() + 3))
            by (nonlinear_arith)
            requires
                next.row < m.n_rows(),
                m.n_cols() >= 0,
        ;
    }
}

/// Whatever the driver answers, the operations that a scan performs are the
/// operations of the plan from the place where the scan stands, in order and
/// without a gap.
pub proof fn lemma_scan_trace_follows_plan(m: Matrix, s: ScanState, events: Seq<Event>, i: int)
    requires
        m.scan_admits(s),
        0 <= i < m.scan_trace(s, events).len(),
    ensures
        m.scan_position(s) + i < m.scan_plan().len(),
        m.scan_trace(s, events)[i] == m.scan_plan()[m.scan_position(s) + i],
    decreases events.len(),
{
    lemma_scan_asks_by_plan(m, s);
    if i > 0 {
        let next = m.scan_next(s, events[0]);
        lemma_scan_moves_by_plan(m, s, events[0]);
        if answers(m.scan_action(s), events[0]) {
            lemma_scan_trace_follows_plan(m, next, events.drop_first(), i - 1);
        } else {
            assert(m.scan_trace(next, events.drop_first()).len() == 0);
        }
    }
}

/// A scan that is refused nothing, and is given events enough, performs the
/// whole plan.
pub proof fn lemma_scan_performs_plan(m: Matrix, events: Seq<Event>)
    requires
        none_refused(m.scan_plan(), 0, events),
        events.len() >= m.scan_plan().len(),
    ensures
        m.scan_trace(m.scan_start(), events) == m.scan_plan(),
{
    let start = m.scan_start();
    assert(0 * (m.n_cols() + 3) == 0) by (nonlinear_arith);
    lemma_scan_trace_len(m, start, events);
    assert forall|i: int| 0 <= i < m.scan_plan().len() implies m.scan_trace(start, events)[i]
        == m.scan_plan()[i] by {
        lemma_scan_trace_follows_plan(m, start, events, i);
    }
    assert(m.scan_trace(start, events) =~= m.scan_plan());
}

/// A scan that is refused nothing performs as many operations as it is given
/// events, up to the end of the plan.
proof fn lemma_scan_trace_len(m: Matrix, s: ScanState, events: Seq<Event>)
    requires
        m.scan_admits(s),
        !s.failed,
        m.scan_position(s) <= m.scan_plan().len(),
        m.scan_position(s) == m.scan_plan().len() ==> m.scan_pending(s) is None,
        none_refused(m.scan_plan(), m.scan_position(s), events),
    ensures
        m.scan_trace(s, events).len() == if events.len() <= m.scan_plan().len() - m.scan_position(
            s,
        ) {
            events.len() as int
        } else {
            m.scan_plan().len() - m.scan_position(s)
        },
    decreases events.len(),
{
    if events.len() > 0 && m.scan_pending(s) is Some {
        lemma_scan_asks_by_plan(m, s);
        lemma_scan_moves_by_plan(m, s, events[0]);
        let next = m.scan_next(s, events[0]);
        let rest = events.drop_first();
        assert(answers(m.scan_plan()[m.scan_position(s) + 0], events[0]));
        assert forall|i: int|
            0 <= i < rest.len() && m.scan_position(next) + i < m.scan_plan().len() implies answers(
            m.scan_plan()[m.scan_position(next) + i],
            #[trigger] rest[i],
        ) by {
            assert(rest[i] == events[i + 1]);
        }
        lemma_scan_trace_len(m, next, rest);
    } else if events.len() > 0 {
        // The scan has ended: it stands at the end of the plan.
        lemma_scan_plan_len(m, m.rows.len());
        assert(s.row == m.n_rows());
    }
}

/// The setup of the first `n_rows` rows has two operations for each row:
/// first the one that makes the row an output, then the one that sets it to
/// the inactive level.
proof fn lemma_rows_plan_rows(m: Matrix, n_rows: nat, row: int)
    requires
        0 <= row < n_rows,
    ensures
        m.rows_plan_of(n_rows).len() == 2 * n_rows,
        m.rows_plan_of(n_rows)[2 * row] == (Action::ConfigureOutput { address: m.rows[row] }),
        m.rows_plan_of(n_rows)[2 * row + 1] == (Action::SetLevel {
            address: m.rows[row],
            level: INACTIVE,
        }),
    decreases n_rows,
{
    lemma_rows_plan_len(m, n_rows);
    lemma_rows_plan_len(m, (n_rows - 1) as nat);
    if row < n_rows - 1 {
        lemma_rows_plan_rows(m, (n_rows - 1) as nat, row);
    }
}

/// The setup of the first `n_rows` rows has two operations for each row.
proof fn lemma_rows_plan_len(m: Matrix, n_rows: nat)
    ensures
        m.rows_plan_of(n_rows).len() == 2 * n_rows,
    decreases n_rows,
{
    if n_rows > 0 {
        lemma_rows_plan_len(m, (n_rows - 1) as nat);
    }
}

/// An initialization that is under way asks for the operation of the plan at
/// the place where it stands.
pub proof fn lemma_init_asks_by_plan(m: Matrix, s: InitState)
    requires
        m.init_admits(s),
        m.init_pending(s) is Some,
    ensures
        0 <= m.init_position(s) < m.init_plan().len(),
        m.init_plan()[m.init_position(s)] == m.init_action(s),
        m.init_plan().len() == m.init_length(),
{
    lemma_rows_plan_len(m, m.rows.len());
    if !(s.stage is Columns) {
        lemma_rows_plan_rows(m, m.rows.len(), s.index);
    }
}

/// An answered operation takes an initialization to the next place of the
/// plan; a refused one ends it.
pub proof fn lemma_init_moves_by_plan(m: Matrix, s: InitState, event: Event)
    requires
        m.init_admits(s),
        m.init_pending(s) is Some,
    ensures
        m.init_admits(m.init_next(s, event)),
        answers(m.init_action(s), event) ==> m.init_position(m.init_next(s, event))
            == m.init_position(s) + 1 && !m.init_next(s, event).failed,
        !answers(m.init_action(s), event) ==> m.init_pending(m.init_next(s, event)) is None,
        m.init_position(m.init_next(s, event)) == m.init_plan().len() ==> m.init_pending(
            m.init_next(s, event),
        ) is None,
{
    lemma_rows_plan_len(m, m.rows.len());
}

/// Whatever the driver answers, the operations that an initialization
/// performs are the operations of the plan from the place where it stands, in
/// order and without a gap.
pub proof fn lemma_init_trace_follows_plan(m: Matrix, s: InitState, events: Seq<Event>, i: int)
    requires
        m.init_admits(s),
        0 <= i < m.init_trace(s, events).len(),
    ensures
        m.init_position(s) + i < m.init_plan().len(),
        m.init_trace(s, events)[i] == m.init_plan()[m.init_position(s) + i],
    decreases events.len(),
{
    lemma_init_asks_by_plan(m, s);
    if i > 0 {
        let next = m.init_next(s, events[0]);
        lemma_init_moves_by_plan(m, s, events[0]);
        if answers(m.init_action(s), events[0]) {
            lemma_init_trace_follows_plan(m, next, events.drop_first(), i - 1);
        } else {
            assert(m.init_trace(next, events.drop_first()).len() == 0);
        }
    }
}

/// An initialization that is refused nothing, and is given events enough,
/// performs the whole plan.
pub proof fn lemma_init_performs_plan(m: Matrix, events: Seq<Event>)
    requires
        none_refused(m.init_plan(), 0, events),
        events.len() >= m.init_plan().len(),
    ensures
        m.init_trace(m.init_start(), events) == m.init_plan(),
{
    let start = m.init_start();
    lemma_rows_plan_len(m, m.rows.len());
    lemma_init_trace_len(m, start, events);
    assert forall|i: int| 0 <= i < m.init_plan().len() implies m.init_trace(start, events)[i]
        == m.init_plan()[i] by {
        lemma_init_trace_follows_plan(m, start, events, i);
    }
    assert(m.init_trace(start, events) =~= m.init_plan());
}

/// An initialization that is refused nothing performs as many operations as
/// it is given events, up to the end of the plan.
proof fn lemma_init_trace_len(m: Matrix, s: InitState, events: Seq<Event>)
    requires
        m.init_admits(s),
        !s.failed,
        m.init_position(s) <= m.init_plan().len(),
        m.init_position(s) == m.init_plan().len() ==> m.init_pending(s) is None,
        none_refused(m.init_plan(), m.init_position(s), events),
    ensures
        m.init_trace(s, events).len() == if events.len() <= m.init_plan().len() - m.init_position(
            s,
        ) {
            events.len() as int
        } else {
            m.init_plan().len() - m.init_position(s)
        },
    decreases events.len(),
{
    lemma_rows_plan_len(m, m.rows.len());
    if events.len() > 0 && m.init_pending(s) is Some {
        lemma_init_asks_by_plan(m, s);
        lemma_init_moves_by_plan(m, s, events[0]);
        let next = m.init_next(s, events[0]);
        let rest = events.drop_first();
        assert(answers(m.init_plan()[m.init_position(s) + 0], events[0]));
        assert forall|i: int|
            0 <= i < rest.len() && m.init_position(next) + i < m.init_plan().len() implies answers(
            m.init_plan()[m.init_position(next) + i],
            #[trigger] rest[i],
        ) by {
            assert(rest[i] == events[i + 1]);
        }
        lemma_init_trace_len(m, next, rest);
    }
}

} // verus!
