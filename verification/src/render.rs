//! A grid of the keys of a bitmask, as text.
//!
//! ```text
//!
//!   ======
//!    0 1 2
//!   ======
//! 0: o x o
//! 1: o o o
//! ```
//!
//! Every key shows as `x` if the bitmask marks it and as `o` if not, each
//! followed by a blank. The columns are numbered above the grid, between two
//! rules, and every row starts with its number.

use vstd::prelude::*;
use crate::bits::{bit_is_set, get_bit_at, WIDTH};
use crate::layout::key_index;

verus! {

/// The character of the digit `d`, for `d` below ten.
pub open spec fn digit(d: int) -> char {
    if d == 0 {
        '0'
    } else if d == 1 {
        '1'
    } else if d == 2 {
        '2'
    } else if d == 3 {
        '3'
    } else if d == 4 {
        '4'
    } else if d == 5 {
        '5'
    } else if d == 6 {
        '6'
    } else if d == 7 {
        '7'
    } else if d == 8 {
        '8'
    } else {
        '9'
    }
}

/// The decimal digits of `n`, without leading zeros.
pub open spec fn decimal(n: nat) -> Seq<char>
    decreases n,
{
    if n < 10 {
        seq![digit(n as int)]
    } else {
        decimal(n / 10).push(digit((n % 10) as int))
    }
}

/// Whether `keys` marks the key with the given index. A key whose index the
/// bitmask cannot hold is never marked.
pub open spec fn marks_key(keys: u32, index: int) -> bool {
    0 <= index < WIDTH && bit_is_set(keys, index as u8)
}

/// The rule above and below the column numbers: two blanks, then `==` for
/// each column.
pub open spec fn rule(n_cols: nat) -> Seq<char>
    decreases n_cols,
{
    if n_cols == 0 {
        seq![' ', ' ']
    } else {
        rule((n_cols - 1) as nat) + seq!['=', '=']
    }
}

/// The line of column numbers up to `n_cols`: three blanks, then each number
/// followed by a blank.
pub open spec fn column_numbers(n_cols: nat) -> Seq<char>
    decreases n_cols,
{
    if n_cols == 0 {
        seq![' ', ' ', ' ']
    } else {
        column_numbers((n_cols - 1) as nat) + decimal((n_cols - 1) as nat) + seq![' ']
    }
}

/// The first `upto` keys of a row: the number of the row, a colon and a
/// blank, then `x` or `o` for each key, followed by a blank. A row without
/// keys is empty.
pub open spec fn row_cells(keys: u32, row: nat, n_cols: nat, upto: nat) -> Seq<char>
    decreases upto,
{
    if upto == 0 {
        Seq::empty()
    } else {
        let label = if upto == 1 {
            decimal(row) + seq![':', ' ']
        } else {
            row_cells(keys, row, n_cols, (upto - 1) as nat)
        };
        let mark = if marks_key(keys, key_index(row as int, upto - 1, n_cols as int)) {
            'x'
        } else {
            'o'
        };
        label + seq![mark, ' ']
    }
}

/// The first `upto` rows of the grid, each ended by a line feed.
pub open spec fn grid_rows(keys: u32, n_cols: nat, upto: nat) -> Seq<char>
    decreases upto,
{
    if upto == 0 {
        Seq::empty()
    } else {
        grid_rows(keys, n_cols, (upto - 1) as nat) + row_cells(
            keys,
            (upto - 1) as nat,
            n_cols,
            n_cols,
        ) + seq!['\n']
    }
}

/// The whole text: an empty line, the rule, the column numbers, the rule, and
/// the rows.
pub open spec fn grid(keys: u32, n_rows: nat, n_cols: nat) -> Seq<char> {
    seq!['\n'] + rule(n_cols) + seq!['\n'] + column_numbers(n_cols) + seq!['\n'] + rule(n_cols)
        + seq!['\n'] + grid_rows(keys, n_cols, n_rows)
}

/// The digit `d` as text.
fn digit_text(d: usize) -> (text: &'static str)
    requires
        d < 10,
    ensures
        text@ == seq![digit(d as int)],
{
    proof {
        reveal_strlit("0");
        reveal_strlit("1");
        reveal_strlit("2");
        reveal_strlit("3");
        reveal_strlit("4");
        reveal_strlit("5");
        reveal_strlit("6");
        reveal_strlit("7");
        reveal_strlit("8");
        reveal_strlit("9");
    }
    let text = if d == 0 {
        "0"
    } else if d == 1 {
        "1"
    } else if d == 2 {
        "2"
    } else if d == 3 {
        "3"
    } else if d == 4 {
        "4"
    } else if d == 5 {
        "5"
    } else if d == 6 {
        "6"
    } else if d == 7 {
        "7"
    } else if d == 8 {
        "8"
    } else {
        "9"
    };
    assert(text@ =~= seq![digit(d as int)]);
    text
}

/// Appends the decimal digits of `n` to `text`.
fn append_decimal(text: &mut String, n: usize)
    ensures
        final(text)@ == old(text)@ + decimal(n as nat),
    decreases n,
{
    if n >= 10 {
        append_decimal(text, n / 10);
    }
    text.append(digit_text(n % 10));
    assert(text@ =~= old(text)@ + decimal(n as nat));
}

/// Appends the rule to `text`.
fn append_rule(text: &mut String, n_cols: usize)
    ensures
        final(text)@ == old(text)@ + rule(n_cols as nat),
{
    proof {
        reveal_strlit("  ");
        reveal_strlit("==");
    }
    text.append("  ");
    assert(text@ =~= old(text)@ + rule(0));
    let mut col: usize = 0;
    while col < n_cols
        invariant
            col <= n_cols,
            text@ == old(text)@ + rule(col as nat),
        decreases n_cols - col,
    {
        text.append("==");
        col = col + 1;
        proof {
            reveal_strlit("==");
            assert(text@ =~= old(text)@ + rule(col as nat));
        }
    }
}

/// The grid of `keys` for a matrix of `n_rows` rows and `n_cols` columns.
pub fn render(keys: u32, n_rows: usize, n_cols: usize) -> (text: String)
    ensures
        text@ == grid(keys, n_rows as nat, n_cols as nat),
{
    proof {
        reveal_strlit("\n");
        reveal_strlit("   ");
        reveal_strlit(" ");
        reveal_strlit(": ");
        reveal_strlit("x ");
        reveal_strlit("o ");
    }
    let mut text = String::new();
    text.append("\n");
    append_rule(&mut text, n_cols);
    text.append("\n");
    text.append("   ");
    let ghost before_numbers = text@;
    assert(before_numbers =~= seq!['\n'] + rule(n_cols as nat) + seq!['\n'] + seq![' ', ' ', ' ']);
    let mut col: usize = 0;
    while col < n_cols
        invariant
            col <= n_cols,
            text@ == seq!['\n'] + rule(n_cols as nat) + seq!['\n'] + column_numbers(col as nat),
        decreases n_cols - col,
    {
        append_decimal(&mut text, col);
        text.append(" ");
        col = col + 1;
        proof {
            reveal_strlit(" ");
            assert(text@ =~= seq!['\n'] + rule(n_cols as nat) + seq!['\n'] + column_numbers(
                col as nat,
            ));
        }
    }
    text.append("\n");
    append_rule(&mut text, n_cols);
    text.append("\n");
    let ghost top = text@;
    assert(top =~= seq!['\n'] + rule(n_cols as nat) + seq!['\n'] + column_numbers(n_cols as nat)
        + seq!['\n'] + rule(n_cols as nat) + seq!['\n']);
    // The index of the next key, or the width once the bitmask is passed.
    let mut next: u8 = 0;
    let mut row: usize = 0;
    while row < n_rows
        invariant
            row <= n_rows,
            text@ == top + grid_rows(keys, n_cols as nat, row as nat),
            next <= WIDTH,
            next == WIDTH || next == key_index(row as int, 0, n_cols as int),
            next == WIDTH ==> key_index(row as int, 0, n_cols as int) >= WIDTH,
        decreases n_rows - row,
    {
        let ghost rows_before = text@;
        let mut col: usize = 0;
        while col < n_cols
            invariant
                col <= n_cols,
                row < n_rows,
                text@ == rows_before + row_cells(keys, row as nat, n_cols as nat, col as nat),
                next <= WIDTH,
                next == WIDTH || next == key_index(row as int, col as int, n_cols as int),
                next == WIDTH ==> key_index(row as int, col as int, n_cols as int) >= WIDTH,
            decreases n_cols - col,
        {
            if col == 0 {
                append_decimal(&mut text, row);
                text.append(": ");
            }
            if get_bit_at(keys, next) {
                text.append("x ");
            } else {
                text.append("o ");
            }
            if next < 32 {
                next = next + 1;
            }
            col = col + 1;
            proof {
                reveal_strlit(": ");
                reveal_strlit("x ");
                reveal_strlit("o ");
                assert(text@ =~= rows_before + row_cells(
                    keys,
                    row as nat,
                    n_cols as nat,
                    col as nat,
                ));
            }
        }
        text.append("\n");
        row = row + 1;
        proof {
            reveal_strlit("\n");
            assert((row - 1) * n_cols + n_cols == row * n_cols) by (nonlinear_arith);
            assert(text@ =~= top + grid_rows(keys, n_cols as nat, row as nat));
        }
    }
    text
}

} // verus!
