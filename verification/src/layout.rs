//! Key indices: the position of each key of the matrix in the bitmask.

use vstd::prelude::*;

verus! {

/// The index of the key at `(row, col)` in a matrix with `n_cols` columns.
pub open spec fn key_index(row: int, col: int, n_cols: int) -> int {
    row * n_cols + col
}

/// The row of the key with the given index.
pub open spec fn key_row(index: int, n_cols: int) -> int {
    index / n_cols
}

/// The column of the key with the given index.
pub open spec fn key_col(index: int, n_cols: int) -> int {
    index % n_cols
}

/// Whether `(row, col)` is a position of a matrix of the given shape.
pub open spec fn in_matrix(row: int, col: int, n_rows: int, n_cols: int) -> bool {
    0 <= row < n_rows && 0 <= col < n_cols
}

/// Whether `(r1, c1)` comes before `(r2, c2)` when the matrix is read row by row.
pub open spec fn row_major_before(r1: int, c1: int, r2: int, c2: int) -> bool {
    r1 < r2 || (r1 == r2 && c1 < c2)
}

/// Every key of the matrix has an index below the number of keys.
pub proof fn lemma_key_index_bounds(row: int, col: int, n_rows: int, n_cols: int)
    requires
        in_matrix(row, col, n_rows, n_cols),
    ensures
        0 <= key_index(row, col, n_cols) < n_rows * n_cols,
{
    assert(0 <= row * n_cols && row * n_cols + n_cols <= n_rows * n_cols) by (nonlinear_arith)
        requires
            0 <= row < n_rows,
            0 < n_cols,
    ;
}

/// Reading the matrix row by row meets the indices in rising order, so two
/// different keys never share an index.
pub proof fn lemma_key_index_order(r1: int, c1: int, r2: int, c2: int, n_cols: int)
    requires
        0 <= r1,
        0 <= r2,
        0 <= c1 < n_cols,
        0 <= c2 < n_cols,
    ensures
        row_major_before(r1, c1, r2, c2) <==> key_index(r1, c1, n_cols) < key_index(r2, c2, n_cols),
        key_index(r1, c1, n_cols) == key_index(r2, c2, n_cols) <==> (r1 == r2 && c1 == c2),
{
    if r1 < r2 {
        assert(r1 * n_cols + n_cols <= r2 * n_cols) by (nonlinear_arith)
            requires
                r1 < r2,
                0 < n_cols,
        ;
    } else if r2 < r1 {
        assert(r2 * n_cols + n_cols <= r1 * n_cols) by (nonlinear_arith)
            requires
                r2 < r1,
                0 < n_cols,
        ;
    }
}

/// The row and the column of a key are found again from its index.
pub proof fn lemma_key_index_inverse(row: int, col: int, n_cols: int)
    requires
        0 <= col < n_cols,
    ensures
        key_row(key_index(row, col, n_cols), n_cols) == row,
        key_col(key_index(row, col, n_cols), n_cols) == col,
{
    vstd::arithmetic::div_mod::lemma_fundamental_div_mod_converse(
        key_index(row, col, n_cols),
        n_cols,
        row,
        col,
    );
}

/// Every index below the number of keys belongs to a key of the matrix.
pub proof fn lemma_key_index_onto(index: int, n_rows: int, n_cols: int)
    requires
        0 <= index < n_rows * n_cols,
        0 <= n_rows,
        0 <= n_cols,
    ensures
        in_matrix(key_row(index, n_cols), key_col(index, n_cols), n_rows, n_cols),
        key_index(key_row(index, n_cols), key_col(index, n_cols), n_cols) == index,
{
    assert(n_cols > 0) by (nonlinear_arith)
        requires
            0 <= index < n_rows * n_cols,
            0 <= n_cols,
    ;
    vstd::arithmetic::div_mod::lemma_fundamental_div_mod(index, n_cols);
    vstd::arithmetic::div_mod::lemma_mod_bound(index, n_cols);
    let q = index / n_cols;
    assert(n_cols * q == q * n_cols) by (nonlinear_arith);
    assert(0 <= q < n_rows) by (nonlinear_arith)
        requires
            0 <= index < n_rows * n_cols,
            0 < n_cols,
            index == q * n_cols + index % n_cols,
            0 <= index % n_cols < n_cols,
    ;
}

/// The key indices are a bijection between the positions of the matrix and
/// the integers below the number of keys, in row-major order.
pub proof fn lemma_key_index_bijection(n_rows: int, n_cols: int)
    requires
        0 <= n_rows,
        0 <= n_cols,
    ensures
        key_index(0, 0, n_cols) == 0,
        forall|row: int, col: int|
            in_matrix(row, col, n_rows, n_cols) ==> 0 <= #[trigger] key_index(row, col, n_cols)
                < n_rows * n_cols,
        forall|r1: int, c1: int, r2: int, c2: int|
            in_matrix(r1, c1, n_rows, n_cols) && in_matrix(r2, c2, n_rows, n_cols) ==> (
            row_major_before(r1, c1, r2, c2) <==> #[trigger] key_index(r1, c1, n_cols)
                < #[trigger] key_index(r2, c2, n_cols)),
        forall|r1: int, c1: int, r2: int, c2: int|
            in_matrix(r1, c1, n_rows, n_cols) && in_matrix(r2, c2, n_rows, n_cols)
                && #[trigger] key_index(r1, c1, n_cols) == #[trigger] key_index(r2, c2, n_cols)
                ==> r1 == r2 && c1 == c2,
        forall|index: int|
            0 <= index < n_rows * n_cols ==> in_matrix(
                #[trigger] key_row(index, n_cols),
                key_col(index, n_cols),
                n_rows,
                n_cols,
            ) && key_index(key_row(index, n_cols), key_col(index, n_cols), n_cols) == index,
{
    assert forall|row: int, col: int| in_matrix(row, col, n_rows, n_cols) implies 0
        <= #[trigger] key_index(row, col, n_cols) < n_rows * n_cols by {
        lemma_key_index_bounds(row, col, n_rows, n_cols);
    }
    assert forall|r1: int, c1: int, r2: int, c2: int|
        in_matrix(r1, c1, n_rows, n_cols) && in_matrix(r2, c2, n_rows, n_cols) implies (
        row_major_before(r1, c1, r2, c2) <==> #[trigger] key_index(r1, c1, n_cols)
            < #[trigger] key_index(r2, c2, n_cols)) by {
        lemma_key_index_order(r1, c1, r2, c2, n_cols);
    }
    assert forall|r1: int, c1: int, r2: int, c2: int|
        in_matrix(r1, c1, n_rows, n_cols) && in_matrix(r2, c2, n_rows, n_cols)
            && #[trigger] key_index(r1, c1, n_cols) == #[trigger] key_index(
            r2,
            c2,
            n_cols,
        ) implies r1 == r2 && c1 == c2 by {
        lemma_key_index_order(r1, c1, r2, c2, n_cols);
    }
    assert forall|index: int| 0 <= index < n_rows * n_cols implies in_matrix(
        #[trigger] key_row(index, n_cols),
        key_col(index, n_cols),
        n_rows,
        n_cols,
    ) && key_index(key_row(index, n_cols), key_col(index, n_cols), n_cols) == index by {
        lemma_key_index_onto(index, n_rows, n_cols);
    }
}

} // verus!
