//! The matrix scanner: the lines of the matrix and the two runs it offers.

use vstd::prelude::*;
use crate::bits::WIDTH;
use crate::layout::{in_matrix, key_index, lemma_key_index_bounds};

verus! {

/// The matrix as wired: the addresses of its row lines and of its column
/// lines, each in scanning order, and the time a driven row takes to settle.
pub struct Matrix {
    pub rows: Seq<u8>,
    pub cols: Seq<u8>,
    pub settle_micros: u64,
}

impl Matrix {
    /// The lines fit the bitmask: there are no more of them than it is wide.
    pub open spec fn wf(self) -> bool {
        self.rows.len() + self.cols.len() <= WIDTH
    }

    /// The number of row lines.
    pub open spec fn n_rows(self) -> int {
        self.rows.len() as int
    }

    /// The number of column lines.
    pub open spec fn n_cols(self) -> int {
        self.cols.len() as int
    }

    /// The index of the key at `(row, col)` of this matrix.
    pub open spec fn key_index(self, row: int, col: int) -> int {
        key_index(row, col, self.n_cols())
    }

    /// Whether `(row, col)` is a key of this matrix.
    pub open spec fn has_key(self, row: int, col: int) -> bool {
        in_matrix(row, col, self.n_rows(), self.n_cols())
    }
}

/// The row lines of the reference design, by their BCM numbers, in scanning
/// order.
pub const ROWS: [u8; 8] = [13, 12, 16, 17, 20, 22, 23, 24];

/// The column lines of the reference design, by their BCM numbers, in scanning
/// order.
pub const COLS: [u8; 3] = [25, 26, 27];

/// The time that a driven row of the reference design is given to settle
/// before its columns are sampled, in microseconds. A shorter time risks
/// sampling a column that still shows the row driven before.
pub const ROW_PULL_DOWN_TIME_US: u64 = 10;

/// A matrix whose lines fit the bitmask has at most 256 keys, so every key
/// index fits a byte.
pub proof fn lemma_keys_fit_a_byte(n_rows: int, n_cols: int)
    requires
        0 <= n_rows,
        0 <= n_cols,
        n_rows + n_cols <= WIDTH,
    ensures
        n_rows * n_cols <= 256,
{
    assert(n_rows * n_cols <= 256) by (nonlinear_arith)
        requires
            0 <= n_rows,
            0 <= n_cols,
            n_rows + n_cols <= 32,
    ;
}

/// Scans a key matrix. It holds the wiring and nothing else: no state passes
/// from one scan to the next.
pub struct MatrixScanner {
    rows: Vec<u8>,
    cols: Vec<u8>,
    settle_micros: u64,
}

impl View for MatrixScanner {
    type V = Matrix;

    closed spec fn view(&self) -> Matrix {
        Matrix { rows: self.rows@, cols: self.cols@, settle_micros: self.settle_micros }
    }
}

impl MatrixScanner {
    #[verifier::type_invariant]
    pub(crate) open spec fn fits(&self) -> bool {
        self@.wf()
    }

    /// A scanner for the given row and column lines, with the settle time of
    /// the reference design. There is none for more lines than the bitmask is
    /// wide.
    pub fn new(rows: Vec<u8>, cols: Vec<u8>) -> (scanner: Option<MatrixScanner>)
        ensures
            scanner is Some <==> rows@.len() + cols@.len() <= WIDTH,
            scanner matches Some(s) ==> s@ == (Matrix {
                rows: rows@,
                cols: cols@,
                settle_micros: ROW_PULL_DOWN_TIME_US,
            }),
    {
        let width = WIDTH as usize;
        if rows.len() <= width && cols.len() <= width - rows.len() {
            Some(MatrixScanner { rows, cols, settle_micros: ROW_PULL_DOWN_TIME_US })
        } else {
            None
        }
    }

    /// The scanner of the reference design: eight rows, three columns.
    pub fn reference() -> (scanner: MatrixScanner)
        ensures
            scanner@ == (Matrix {
                rows: ROWS@,
                cols: COLS@,
                settle_micros: ROW_PULL_DOWN_TIME_US,
            }),
    {
        let mut rows: Vec<u8> = Vec::new();
        let mut row: usize = 0;
        while row < 8
            invariant
                row <= 8,
                rows@ == ROWS@.take(row as int),
            decreases 8 - row,
        {
            rows.push(ROWS[row]);
            row = row + 1;
            assert(rows@ =~= ROWS@.take(row as int));
        }
        let mut cols: Vec<u8> = Vec::new();
        let mut col: usize = 0;
        while col < 3
            invariant
                col <= 3,
                cols@ == COLS@.take(col as int),
            decreases 3 - col,
        {
            cols.push(COLS[col]);
            col = col + 1;
            assert(cols@ =~= COLS@.take(col as int));
        }
        assert(rows@ =~= ROWS@);
        assert(cols@ =~= COLS@);
        MatrixScanner { rows, cols, settle_micros: ROW_PULL_DOWN_TIME_US }
    }

    /// The same scanner with another settle time.
    pub fn with_settle_micros(self, micros: u64) -> (scanner: MatrixScanner)
        ensures
            scanner@ == (Matrix { settle_micros: micros, ..self@ }),
    {
        proof {
            use_type_invariant(&self);
        }
        MatrixScanner { rows: self.rows, cols: self.cols, settle_micros: micros }
    }

    /// The number of row lines.
    pub fn n_rows(&self) -> (n: usize)
        ensures
            n == self@.n_rows(),
            self@.wf(),
    {
        proof {
            use_type_invariant(self);
        }
        self.rows.len()
    }

    /// The number of column lines.
    pub fn n_cols(&self) -> (n: usize)
        ensures
            n == self@.n_cols(),
            self@.wf(),
    {
        proof {
            use_type_invariant(self);
        }
        self.cols.len()
    }

    /// The time a driven row is given to settle, in microseconds.
    pub fn settle_micros(&self) -> (micros: u64)
        ensures
            micros == self@.settle_micros,
    {
        self.settle_micros
    }

    /// The address of the line of the given row.
    pub fn row_address(&self, row: usize) -> (address: u8)
        requires
            row < self@.n_rows(),
        ensures
            address == self@.rows[row as int],
    {
        self.rows[row]
    }

    /// The address of the line of the given column.
    pub fn col_address(&self, col: usize) -> (address: u8)
        requires
            col < self@.n_cols(),
        ensures
            address == self@.cols[col as int],
    {
        self.cols[col]
    }

    /// The position in the bitmask of the key at `(row, col)`.
    pub fn key_index(&self, row: usize, col: usize) -> (index: u8)
        requires
            self@.has_key(row as int, col as int),
        ensures
            index == self@.key_index(row as int, col as int),
    {
        proof {
            use_type_invariant(self);
            lemma_key_index_bounds(
                row as int,
                col as int,
                self@.n_rows(),
                self@.n_cols(),
            );
            lemma_keys_fit_a_byte(self@.n_rows(), self@.n_cols());
        }
        (row * self.cols.len() + col) as u8
    }
}

} // verus!
