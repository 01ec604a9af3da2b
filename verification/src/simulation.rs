//! A scan against a simulated key matrix, and what it finds.
//!
//! The simulated matrix has a set of keys that are held down. A held key joins
//! the line of its column to the line of its row, so a column is found at the
//! active level exactly when a held key joins it to a row line that is driven
//! active; otherwise its bias keeps it inactive.

use vstd::prelude::*;
use crate::bits::{
    agree_at, bit_is_set, lemma_clear_bit, lemma_same_marks_same_bits, lemma_set_bit,
    lemma_zero_marks_nothing, WIDTH,
};
use crate::layout::{
    key_col, key_row, lemma_key_index_bounds, lemma_key_index_inverse, lemma_key_index_onto,
};
use crate::levels::{driven, is_active, lemma_scan_step_keeps};
use crate::line::{Action, Event, HardwareAccessError, Level, ACTIVE, INACTIVE};
use crate::scan::{with_key, Phase, ScanState};
use crate::scanner::{lemma_keys_fit_a_byte, Matrix, COLS, ROWS};

verus! {

impl Matrix {
    /// The number of keys of the matrix.
    pub open spec fn n_keys(self) -> int {
        self.n_rows() * self.n_cols()
    }

    /// The row and the column of the key with the given index.
    pub open spec fn key_at(self, index: int) -> (int, int) {
        (key_row(index, self.n_cols()), key_col(index, self.n_cols()))
    }

    /// No two lines of the matrix share an address.
    pub open spec fn lines_distinct(self) -> bool {
        self.rows.no_duplicates() && self.cols.no_duplicates() && self.rows.disjoint(self.cols)
    }

    /// The level at which the column line at `address` is found while the keys
    /// in `held` are down and the driven lines are at the levels `lines`.
    pub open spec fn column_level(
        self,
        held: Set<(int, int)>,
        lines: Map<u8, Level>,
        address: u8,
    ) -> Level {
        if exists|row: int, col: int|
            self.has_key(row, col) && held.contains((row, col)) && self.cols[col] == address
                && is_active(lines, self.rows[row]) {
            ACTIVE
        } else {
            INACTIVE
        }
    }

    /// What the simulated matrix reports of `action`, performed on lines that
    /// are then at the levels `lines`. Nothing is ever refused.
    pub open spec fn answer(
        self,
        held: Set<(int, int)>,
        lines: Map<u8, Level>,
        action: Action,
    ) -> Event {
        match action {
            Action::ReadLevel { address } => Event::Sampled(
                self.column_level(held, lines, address),
            ),
            _ => Event::Done,
        }
    }

    /// The bitmask that marks, of the keys with an index below `index`, those
    /// in `held`.
    pub open spec fn keymap_below(self, held: Set<(int, int)>, index: nat) -> u32
        decreases index,
    {
        if index == 0 {
            0
        } else {
            with_key(
                self.keymap_below(held, (index - 1) as nat),
                index - 1,
                held.contains(self.key_at(index - 1)),
            )
        }
    }

    /// The bitmask that marks the keys in `held`.
    pub open spec fn keymap_of(self, held: Set<(int, int)>) -> u32 {
        self.keymap_below(held, self.n_keys() as nat)
    }

    /// The state of the scan and the levels of the lines after at most `steps`
    /// operations against the simulated matrix, starting from `s` and `lines`.
    pub open spec fn scan_run(
        self,
        held: Set<(int, int)>,
        s: ScanState,
        lines: Map<u8, Level>,
        steps: nat,
    ) -> (ScanState, Map<u8, Level>)
        decreases steps,
    {
        if steps == 0 || self.scan_pending(s) is None {
            (s, lines)
        } else {
            let action = self.scan_action(s);
            let after = driven(lines, action);
            let event = self.answer(held, after, action);
            self.scan_run(held, self.scan_next(s, event), after, (steps - 1) as nat)
        }
    }

    /// The index of the next key that a scan in state `s` will sample.
    spec fn scan_cursor(self, s: ScanState) -> int {
        if s.phase is Release {
            self.key_index(s.row + 1, 0)
        } else {
            self.key_index(s.row, s.col)
        }
    }

    /// The number of operations that a scan in state `s` has before it.
    spec fn scan_remaining(self, s: ScanState) -> int {
        (self.n_rows() - s.row) * (self.n_cols() + 3) - match s.phase {
            Phase::Drive => 0,
            Phase::Settle => 1,
            Phase::Sample => 2 + s.col,
            Phase::Release => 2 + self.n_cols(),
        }
    }
}

/// The lines of the reference design fit the bitmask and are distinct.
pub proof fn lemma_reference_lines_distinct(settle_micros: u64)
    ensures
        (Matrix { rows: ROWS@, cols: COLS@, settle_micros }).wf(),
        (Matrix { rows: ROWS@, cols: COLS@, settle_micros }).lines_distinct(),
{
}

/// One operation against the simulated matrix is never refused, and takes
/// the scan one operation nearer to its end.
proof fn lemma_scan_step_advances(
    m: Matrix,
    held: Set<(int, int)>,
    s: ScanState,
    lines: Map<u8, Level>,
)
    requires
        m.scan_admits(s),
        m.scan_pending(s) is Some,
    ensures
        ({
            let action = m.scan_action(s);
            let after = driven(lines, action);
            let next = m.scan_next(s, m.answer(held, after, action));
            &&& m.scan_admits(next)
            &&& !next.failed
            &&& m.scan_remaining(next) == m.scan_remaining(s) - 1
        }),
{
    assert((m.n_rows() - s.row - 1) * (m.n_cols() + 3) == (m.n_rows() - s.row) * (m.n_cols() + 3)
        - (m.n_cols() + 3)) by (nonlinear_arith);
}

/// A scan that is still under way has at least one operation before it.
proof fn lemma_scan_under_way_remains(m: Matrix, s: ScanState)
    requires
        m.scan_admits(s),
        m.scan_pending(s) is Some,
    ensures
        m.scan_remaining(s) >= 1,
{
    assert((m.n_rows() - s.row) * (m.n_cols() + 3) >= m.n_cols() + 3) by (nonlinear_arith)
        requires
            m.n_rows() - s.row >= 1,
            m.n_cols() >= 0,
    ;
}

/// A scan against the simulated matrix, given operations enough, goes through
/// every row and is never refused.
proof fn lemma_scan_run_completes(
    m: Matrix,
    held: Set<(int, int)>,
    s: ScanState,
    lines: Map<u8, Level>,
    steps: nat,
)
    requires
        m.scan_admits(s),
        !s.failed,
        steps >= m.scan_remaining(s),
    ensures
        ({
            let end = m.scan_run(held, s, lines, steps).0;
            &&& m.scan_through(end)
            &&& m.scan_outcome(end) == Some(Ok::<u32, HardwareAccessError>(end.keymap))
        }),
    decreases steps,
{
    if m.scan_pending(s) is Some {
        lemma_scan_under_way_remains(m, s);
        lemma_scan_step_advances(m, held, s, lines);
        let action = m.scan_action(s);
        let after = driven(lines, action);
        let next = m.scan_next(s, m.answer(held, after, action));
        lemma_scan_run_completes(m, held, next, after, (steps - 1) as nat);
    }
}

/// A scan against the simulated matrix that starts while no row line is
/// active, given operations enough, leaves no row line active.
pub proof fn lemma_scan_leaves_rows_inactive(
    m: Matrix,
    held: Set<(int, int)>,
    lines: Map<u8, Level>,
    steps: nat,
)
    requires
        m.active_rows(lines) == Set::<u8>::empty(),
        steps >= m.scan_length(),
    ensures
        m.active_rows(m.scan_run(held, m.scan_start(), lines, steps).1) == Set::<u8>::empty(),
{
    lemma_scan_run_completes(m, held, m.scan_start(), lines, steps);
    lemma_scan_run_keeps(m, held, m.scan_start(), lines, steps);
}

/// Throughout a scan against the simulated matrix that starts while no row
/// line is active, at most one row line is active, and whenever a column is
/// about to be sampled exactly one is: the line of the row being scanned.
pub proof fn lemma_one_row_active_throughout(
    m: Matrix,
    held: Set<(int, int)>,
    lines: Map<u8, Level>,
    steps: nat,
)
    requires
        m.active_rows(lines) == Set::<u8>::empty(),
    ensures
        ({
            let (s, after) = m.scan_run(held, m.scan_start(), lines, steps);
            &&& m.active_rows(after).len() <= 1
            &&& m.scan_pending(s) matches Some(Action::ReadLevel { .. }) ==> m.active_rows(after)
                == set![m.rows[s.row]] && m.active_rows(after).len() == 1
            &&& m.n_rows() == 0 ==> m.active_rows(after).len() == 0
        }),
{
    lemma_scan_run_keeps(m, held, m.scan_start(), lines, steps);
}

/// A scan against the simulated matrix keeps, however far it is run, what a
/// scan keeps true of the row lines.
proof fn lemma_scan_run_keeps(
    m: Matrix,
    held: Set<(int, int)>,
    s: ScanState,
    lines: Map<u8, Level>,
    steps: nat,
)
    requires
        m.scan_admits(s),
        m.scan_keeps(s, lines),
    ensures
        m.scan_admits(m.scan_run(held, s, lines, steps).0),
        m.scan_keeps(m.scan_run(held, s, lines, steps).0, m.scan_run(held, s, lines, steps).1),
    decreases steps,
{
    if steps > 0 && m.scan_pending(s) is Some {
        let action = m.scan_action(s);
        let after = driven(lines, action);
        let event = m.answer(held, after, action);
        lemma_scan_step_keeps(m, s, lines, event);
        lemma_scan_run_keeps(m, held, m.scan_next(s, event), after, (steps - 1) as nat);
    }
}

/// What a column is found at depends on the levels of the lines only through
/// the row lines that are active.
proof fn lemma_column_level_follows_active_rows(
    m: Matrix,
    held: Set<(int, int)>,
    lines: Map<u8, Level>,
    other: Map<u8, Level>,
    address: u8,
)
    requires
        m.active_rows(lines) == m.active_rows(other),
    ensures
        m.column_level(held, lines, address) == m.column_level(held, other, address),
{
    assert forall|row: int| 0 <= row < m.n_rows() implies is_active(lines, #[trigger] m.rows[row])
        == is_active(other, m.rows[row]) by {
        let address = m.rows[row];
        assert(m.rows.contains(address));
        assert(m.active_rows(lines).contains(address) == is_active(lines, address));
        assert(m.active_rows(other).contains(address) == is_active(other, address));
    }
    if m.column_level(held, lines, address) == ACTIVE {
        let (row, col) = choose|row: int, col: int|
            m.has_key(row, col) && held.contains((row, col)) && m.cols[col] == address
                && is_active(lines, m.rows[row]);
        assert(m.has_key(row, col) && held.contains((row, col)) && m.cols[col] == address
            && is_active(other, m.rows[row]));
    }
    if m.column_level(held, other, address) == ACTIVE {
        let (row, col) = choose|row: int, col: int|
            m.has_key(row, col) && held.contains((row, col)) && m.cols[col] == address
                && is_active(other, m.rows[row]);
        assert(m.has_key(row, col) && held.contains((row, col)) && m.cols[col] == address
            && is_active(lines, m.rows[row]));
    }
}

/// Two runs from the same state, each on lines that obey what a scan keeps
/// true of them, pass through the same states: nothing else about the lines
/// reaches the scan.
proof fn lemma_scan_run_follows_active_rows(
    m: Matrix,
    held: Set<(int, int)>,
    s: ScanState,
    lines: Map<u8, Level>,
    other: Map<u8, Level>,
    steps: nat,
)
    requires
        m.scan_admits(s),
        m.scan_keeps(s, lines),
        m.scan_keeps(s, other),
    ensures
        m.scan_run(held, s, lines, steps).0 == m.scan_run(held, s, other, steps).0,
    decreases steps,
{
    if steps > 0 && m.scan_pending(s) is Some {
        let action = m.scan_action(s);
        let after = driven(lines, action);
        let other_after = driven(other, action);
        lemma_scan_step_keeps(m, s, lines, m.answer(held, after, action));
        lemma_scan_step_keeps(m, s, other, m.answer(held, other_after, action));
        match action {
            Action::ReadLevel { address } => {
                lemma_column_level_follows_active_rows(m, held, after, other_after, address);
            },
            _ => {},
        }
        let next = m.scan_next(s, m.answer(held, after, action));
        lemma_scan_run_follows_active_rows(m, held, next, after, other_after, (steps - 1) as nat);
    }
}

/// While one row line is active and no two lines share an address, a sampled
/// column is found active exactly when the key that joins it to that row is
/// held.
pub proof fn lemma_sample_tells_the_key(
    m: Matrix,
    held: Set<(int, int)>,
    s: ScanState,
    lines: Map<u8, Level>,
)
    requires
        m.lines_distinct(),
        m.scan_admits(s),
        m.scan_keeps(s, lines),
        s.phase is Sample,
        s.row < m.n_rows(),
    ensures
        m.column_level(held, lines, m.cols[s.col]) == ACTIVE <==> held.contains((s.row, s.col)),
{
    let address = m.cols[s.col];
    let row_line = m.rows[s.row];
    assert(m.active_rows(lines).contains(row_line));
    if held.contains((s.row, s.col)) {
        assert(m.has_key(s.row, s.col) && held.contains((s.row, s.col)) && m.cols[s.col] == address
            && is_active(lines, m.rows[s.row]));
    }
    if m.column_level(held, lines, address) == ACTIVE {
        let (row, col) = choose|row: int, col: int|
            m.has_key(row, col) && held.contains((row, col)) && m.cols[col] == address
                && is_active(lines, m.rows[row]);
        assert(col == s.col);
        assert(m.rows.contains(m.rows[row]));
        assert(m.active_rows(lines).contains(m.rows[row]));
        assert(row == s.row);
    }
}

/// On distinct lines, a scan against the simulated matrix that has marked the
/// held keys up to the one it will sample next ends with the bitmask of the
/// held keys.
proof fn lemma_scan_run_marks_held_keys(
    m: Matrix,
    held: Set<(int, int)>,
    s: ScanState,
    lines: Map<u8, Level>,
    steps: nat,
)
    requires
        m.wf(),
        m.lines_distinct(),
        m.scan_admits(s),
        !s.failed,
        m.scan_keeps(s, lines),
        m.scan_cursor(s) >= 0,
        s.keymap == m.keymap_below(held, m.scan_cursor(s) as nat),
        steps >= m.scan_remaining(s),
    ensures
        m.scan_run(held, s, lines, steps).0.keymap == m.keymap_of(held),
    decreases steps,
{
    let n_cols = m.n_cols();
    if m.scan_pending(s) is None {
        assert(s.row == m.n_rows());
    } else {
        lemma_scan_under_way_remains(m, s);
        lemma_scan_step_advances(m, held, s, lines);
        let action = m.scan_action(s);
        let after = driven(lines, action);
        let next = m.scan_next(s, m.answer(held, after, action));
        lemma_scan_step_keeps(m, s, lines, m.answer(held, after, action));
        assert((s.row + 1) * n_cols == s.row * n_cols + n_cols) by (nonlinear_arith);
        assert(0 <= s.row * n_cols) by (nonlinear_arith)
            requires
                0 <= s.row,
                0 <= n_cols,
        ;
        if s.phase is Sample {
            let index = m.key_index(s.row, s.col);
            lemma_key_index_inverse(s.row, s.col, n_cols);
            lemma_sample_tells_the_key(m, held, s, lines);
            assert(m.key_at(index) == (s.row, s.col));
            assert(m.keymap_below(held, (index + 1) as nat) == with_key(
                m.keymap_below(held, index as nat),
                index,
                held.contains(m.key_at(index)),
            ));
        }
        lemma_scan_run_marks_held_keys(m, held, next, after, (steps - 1) as nat);
    }
}

/// A whole scan against the simulated matrix on distinct lines, started while
/// no row line is active, returns the bitmask of the held keys and leaves no
/// row line active.
pub proof fn lemma_scan_finds_held_keys(
    m: Matrix,
    held: Set<(int, int)>,
    lines: Map<u8, Level>,
    steps: nat,
)
    requires
        m.wf(),
        m.lines_distinct(),
        m.active_rows(lines) == Set::<u8>::empty(),
        steps >= m.scan_length(),
    ensures
        m.scan_outcome(m.scan_run(held, m.scan_start(), lines, steps).0) == Some(
            Ok::<u32, HardwareAccessError>(m.keymap_of(held)),
        ),
        m.active_rows(m.scan_run(held, m.scan_start(), lines, steps).1) == Set::<u8>::empty(),
{
    assert(0 * m.n_cols() == 0) by (nonlinear_arith);
    lemma_scan_run_completes(m, held, m.scan_start(), lines, steps);
    lemma_scan_run_marks_held_keys(m, held, m.scan_start(), lines, steps);
    lemma_scan_leaves_rows_inactive(m, held, lines, steps);
}

/// The bitmask of the held keys marks a position exactly when it is the index
/// of a key of the matrix and that key is held.
pub proof fn lemma_keymap_marks_held_keys(m: Matrix, held: Set<(int, int)>, n: u8)
    requires
        m.wf(),
    ensures
        bit_is_set(m.keymap_of(held), n) <==> n < WIDTH && n < m.n_keys() && held.contains(
            m.key_at(n as int),
        ),
{
    assert(m.n_keys() >= 0) by (nonlinear_arith)
        requires
            m.n_keys() == m.n_rows() * m.n_cols(),
            m.n_rows() >= 0,
            m.n_cols() >= 0,
    ;
    lemma_keymap_below_marks_held_keys(m, held, m.n_keys() as nat, n);
}

/// The bitmask of the held keys below `index` marks a position exactly when
/// the position is below `index` and the key with that index is held.
proof fn lemma_keymap_below_marks_held_keys(
    m: Matrix,
    held: Set<(int, int)>,
    index: nat,
    n: u8,
)
    ensures
        bit_is_set(m.keymap_below(held, index), n) <==> n < WIDTH && n < index && held.contains(
            m.key_at(n as int),
        ),
    decreases index,
{
    if index == 0 {
        lemma_zero_marks_nothing(n);
    } else {
        let before = m.keymap_below(held, (index - 1) as nat);
        lemma_keymap_below_marks_held_keys(m, held, (index - 1) as nat, n);
        if index - 1 < WIDTH {
            lemma_set_bit(before, (index - 1) as u8);
            lemma_clear_bit(before, (index - 1) as u8);
        }
    }
}

/// The bitmask of the held keys is the only one that marks exactly the held
/// keys.
pub proof fn lemma_keymap_is_determined(m: Matrix, held: Set<(int, int)>, keys: u32)
    requires
        m.wf(),
        forall|n: u8|
            n < WIDTH ==> (#[trigger] bit_is_set(keys, n) <==> n < m.n_keys() && held.contains(
                m.key_at(n as int),
            )),
    ensures
        keys == m.keymap_of(held),
{
    assert forall|n: u8| n < WIDTH implies #[trigger] agree_at(keys, m.keymap_of(held), n) by {
        lemma_keymap_marks_held_keys(m, held, n);
    }
    lemma_same_marks_same_bits(keys, m.keymap_of(held));
}

/// The bitmask of a single held key marks the index of that key and nothing
/// else; it is empty where the bitmask cannot hold the index.
pub proof fn lemma_single_key_marks_its_index(m: Matrix, row: int, col: int)
    requires
        m.wf(),
        m.has_key(row, col),
    ensures
        m.keymap_of(set![(row, col)]) == with_key(0, m.key_index(row, col), true),
{
    let held = set![(row, col)];
    let index = m.key_index(row, col);
    let keys = with_key(0, index, true);
    lemma_key_index_bounds(row, col, m.n_rows(), m.n_cols());
    lemma_keys_fit_a_byte(m.n_rows(), m.n_cols());
    lemma_key_index_inverse(row, col, m.n_cols());
    assert forall|n: u8| n < WIDTH implies (#[trigger] bit_is_set(keys, n) <==> n < m.n_keys()
        && held.contains(m.key_at(n as int))) by {
        lemma_zero_marks_nothing(n);
        if index < WIDTH {
            lemma_set_bit(0, index as u8);
        }
        if n < m.n_keys() && n != index {
            lemma_key_index_onto(n as int, m.n_rows(), m.n_cols());
        }
    }
    lemma_keymap_is_determined(m, held, keys);
}

/// With no key held, a scan against the simulated matrix finds every column
/// inactive and keeps an empty bitmask empty.
proof fn lemma_idle_run_marks_nothing(
    m: Matrix,
    s: ScanState,
    lines: Map<u8, Level>,
    steps: nat,
)
    requires
        s.keymap == 0,
    ensures
        m.scan_run(Set::<(int, int)>::empty(), s, lines, steps).0.keymap == 0,
    decreases steps,
{
    let held = Set::<(int, int)>::empty();
    if steps > 0 && m.scan_pending(s) is Some {
        let action = m.scan_action(s);
        let after = driven(lines, action);
        let next = m.scan_next(s, m.answer(held, after, action));
        if s.phase is Sample {
            let index = m.key_index(s.row, s.col);
            if 0 <= index < WIDTH {
                let n = index as u8;
                assert(0u32 & !(1u32 << n) == 0) by (bit_vector);
            }
        }
        lemma_idle_run_marks_nothing(m, next, after, (steps - 1) as nat);
    }
}

/// A whole scan of a matrix on which no key is held returns the empty
/// bitmask.
pub proof fn lemma_idle_scan_is_zero(m: Matrix, lines: Map<u8, Level>, steps: nat)
    requires
        steps >= m.scan_length(),
    ensures
        m.scan_outcome(m.scan_run(Set::<(int, int)>::empty(), m.scan_start(), lines, steps).0)
            == Some(Ok::<u32, HardwareAccessError>(0)),
{
    let held = Set::<(int, int)>::empty();
    lemma_scan_run_completes(m, held, m.scan_start(), lines, steps);
    lemma_idle_run_marks_nothing(m, m.scan_start(), lines, steps);
}

/// A second scan, made on the lines as the first scan left them and with the
/// same keys held, returns what the first returned.
pub proof fn lemma_rescan_returns_the_same(
    m: Matrix,
    held: Set<(int, int)>,
    lines: Map<u8, Level>,
    steps: nat,
    again: nat,
)
    requires
        m.active_rows(lines) == Set::<u8>::empty(),
        steps >= m.scan_length(),
        again >= m.scan_length(),
    ensures
        ({
            let (first, left) = m.scan_run(held, m.scan_start(), lines, steps);
            let (second, _) = m.scan_run(held, m.scan_start(), left, again);
            &&& m.scan_outcome(first) is Some
            &&& m.scan_outcome(second) == m.scan_outcome(first)
        }),
{
    let start = m.scan_start();
    let (first, left) = m.scan_run(held, start, lines, steps);
    lemma_scan_run_completes(m, held, start, lines, steps);
    lemma_scan_leaves_rows_inactive(m, held, lines, steps);
    lemma_scan_run_follows_active_rows(m, held, start, lines, left, again);
    lemma_scan_run_settled(m, held, start, lines, steps, again);
}

/// Once a run has ended, more operations change nothing: a run of more steps
/// than the scan needs ends in the state in which it ends after just enough.
proof fn lemma_scan_run_settled(
    m: Matrix,
    held: Set<(int, int)>,
    s: ScanState,
    lines: Map<u8, Level>,
    steps: nat,
    more: nat,
)
    requires
        m.scan_admits(s),
        !s.failed,
        steps >= m.scan_remaining(s),
        more >= m.scan_remaining(s),
    ensures
        m.scan_run(held, s, lines, steps) == m.scan_run(held, s, lines, more),
    decreases steps,
{
    if m.scan_pending(s) is Some {
        lemma_scan_under_way_remains(m, s);
        lemma_scan_step_advances(m, held, s, lines);
        let action = m.scan_action(s);
        let after = driven(lines, action);
        let next = m.scan_next(s, m.answer(held, after, action));
        lemma_scan_run_settled(m, held, next, after, (steps - 1) as nat, (more - 1) as nat);
    }
}

} // verus!
