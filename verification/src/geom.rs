//! Integer core of the hexagonal board tiling.
//!
//! A board holds 56 keys laid out in 11 rows of fixed lengths; each row is
//! shifted right by a fixed offset measured in half-columns. A key index in
//! `0..56` decomposes uniquely into a row and a column within that row, and
//! the key's hexagon center sits at skewed-grid coordinates that are exact
//! multiples of one half. This module computes that decomposition and those
//! centers as doubled integers; the renderer scales them by the hexagonal
//! basis vectors and rotates them, which is floating-point work outside the
//! verified core.

use vstd::prelude::*;

verus! {

/// Number of rows of keys on one board.
pub const NUM_ROWS: usize = 11;

/// Number of keys on one board: the sum of the row lengths.
pub const KEYS_PER_BOARD: usize = 56;

/// Number of boards on the instrument.
pub const NUM_BOARDS: usize = 5;

/// Length of row `r` of a board, top row first; 0 outside `0..11`.
pub open spec fn row_length(r: int) -> int {
    if r == 0 {
        2
    } else if r == 1 {
        5
    } else if 2 <= r && r <= 8 {
        6
    } else if r == 9 {
        5
    } else if r == 10 {
        2
    } else {
        0
    }
}

/// Rightward shift of row `r`, in half-columns; 0 outside `0..11`.
pub open spec fn row_offset(r: int) -> int {
    if r == 1 || r == 3 || r == 5 || r == 7 {
        1
    } else if r == 9 {
        3
    } else if r == 10 {
        8
    } else {
        0
    }
}

/// Number of keys in the rows above row `r`.
pub open spec fn keys_before(r: int) -> int
    decreases r,
{
    if r <= 0 {
        0
    } else {
        keys_before(r - 1) + row_length(r - 1)
    }
}

/// The row lengths of one board sum to exactly 56 keys.
pub proof fn lemma_row_lengths_sum()
    ensures
        keys_before(NUM_ROWS as int) == KEYS_PER_BOARD as int,
{
    reveal_with_fuel(keys_before, 12);
}

/// `keys_before` grows weakly with the row index.
proof fn lemma_keys_before_mono(a: int, b: int)
    requires
        0 <= a <= b,
    ensures
        keys_before(a) <= keys_before(b),
    decreases b,
{
    if a < b {
        lemma_keys_before_mono(a, b - 1);
    }
}

/// No two distinct (row, column) cells of the row table denote the same key:
/// together with the totality of `key_to_row_col` this makes the
/// decomposition of `0..56` into (row, column) pairs a bijection.
pub proof fn lemma_row_decomposition_unique(r1: int, c1: int, r2: int, c2: int)
    requires
        0 <= r1 < NUM_ROWS as int,
        0 <= c1 < row_length(r1),
        0 <= r2 < NUM_ROWS as int,
        0 <= c2 < row_length(r2),
        keys_before(r1) + c1 == keys_before(r2) + c2,
    ensures
        r1 == r2,
        c1 == c2,
{
    if r1 < r2 {
        lemma_keys_before_mono(r1 + 1, r2);
        assert(keys_before(r1 + 1) == keys_before(r1) + row_length(r1));
    } else if r2 < r1 {
        lemma_keys_before_mono(r2 + 1, r1);
        assert(keys_before(r2 + 1) == keys_before(r2) + row_length(r2));
    }
}

/// Length of row `r` as an executable value.
pub fn row_length_at(r: usize) -> (n: usize)
    requires
        r < NUM_ROWS,
    ensures
        n == row_length(r as int),
{
    if r == 0 {
        2
    } else if r == 1 {
        5
    } else if r <= 8 {
        6
    } else if r == 9 {
        5
    } else {
        2
    }
}

/// Offset of row `r` as an executable value.
pub fn row_offset_at(r: usize) -> (n: usize)
    requires
        r < NUM_ROWS,
    ensures
        n == row_offset(r as int),
{
    if r == 1 || r == 3 || r == 5 || r == 7 {
        1
    } else if r == 9 {
        3
    } else if r == 10 {
        8
    } else {
        0
    }
}

/// Number of keys above row `r` as an executable value.
pub fn keys_before_at(r: usize) -> (n: usize)
    requires
        r <= NUM_ROWS,
    ensures
        n == keys_before(r as int),
{
    let mut i: usize = 0;
    let mut acc: usize = 0;
    while i < r
        invariant
            i <= r <= NUM_ROWS,
            acc == keys_before(i as int),
        decreases r - i,
    {
        proof {
            lemma_keys_before_mono(i as int + 1, NUM_ROWS as int);
            lemma_row_lengths_sum();
        }
        acc = acc + row_length_at(i);
        i = i + 1;
    }
    acc
}

/// Decompose a key index into its (row, column) cell: the unique pair with
/// `column < row_length(row)` and `keys_before(row) + column == key`.
pub fn key_to_row_col(key: usize) -> (rc: (usize, usize))
    requires
        key < KEYS_PER_BOARD,
    ensures
        rc.0 < NUM_ROWS,
        rc.1 < row_length(rc.0 as int),
        keys_before(rc.0 as int) + rc.1 == key,
{
    let mut r: usize = 0;
    let mut rem: usize = key;
    loop
        invariant
            key < KEYS_PER_BOARD,
            r < NUM_ROWS,
            keys_before(r as int) + rem == key,
        decreases NUM_ROWS - r,
    {
        let len = row_length_at(r);
        if rem < len {
            return (r, rem);
        }
        rem = rem - len;
        r = r + 1;
        proof {
            if r == NUM_ROWS {
                lemma_row_lengths_sum();
                assert(false);
            }
        }
    }
}

/// Recompose a (row, column) cell into its key index: the inverse of
/// `key_to_row_col`.
pub fn row_col_to_key(r: usize, c: usize) -> (key: usize)
    requires
        r < NUM_ROWS,
        c < row_length(r as int),
    ensures
        key < KEYS_PER_BOARD,
        keys_before(r as int) + c == key,
{
    proof {
        lemma_keys_before_mono(r as int + 1, NUM_ROWS as int);
        lemma_row_lengths_sum();
    }
    let base = keys_before_at(r);
    base + c
}

/// Doubled x coordinate of a key's center in the skewed grid: the column
/// (row offset in half-columns plus the column within the row), plus the
/// board's horizontal offset of 6 columns per board, recentered around the
/// five-board assembly's midpoint of 15 columns.
pub open spec fn center_x2(board: int, r: int, c: int) -> int {
    12 * board + row_offset(r) + 2 * c - 30
}

/// Doubled y coordinate of a key's center in the skewed grid: the row, plus
/// the board's vertical offset of 2 rows per board, recentered around the
/// assembly's midpoint of 8.5 rows.
pub open spec fn center_y2(board: int, r: int) -> int {
    4 * board + 2 * r - 17
}

/// Center of the hexagon of the key at cell (`r`, `c`) of board `board`, as
/// doubled integers in the skewed grid, before the hexagonal basis scaling
/// and the fixed rotation that the renderer applies.
pub fn center_doubled(board: usize, r: usize, c: usize) -> (p: (i32, i32))
    requires
        board < NUM_BOARDS,
        r < NUM_ROWS,
        c < row_length(r as int),
    ensures
        p.0 == center_x2(board as int, r as int, c as int),
        p.1 == center_y2(board as int, r as int),
{
    let x2: i32 = 12 * (board as i32) + (row_offset_at(r) as i32) + 2 * (c as i32) - 30;
    let y2: i32 = 4 * (board as i32) + 2 * (r as i32) - 17;
    (x2, y2)
}

/// Doubled pre-rotation extent of the whole five-board assembly in the skewed
/// grid: the top-left padding of (0.5, -0.5) plus twice the board center of
/// (3, 4.5) plus four board offsets of (6, 2), per axis, all doubled. The
/// renderer scales this by the hexagonal basis and rotates it to obtain the
/// drawable bounding size.
pub fn layout_extent_doubled() -> (v: (u32, u32))
    ensures
        v.0 == 1 + 4 * 3 + 8 * 6,
        v.1 == 2 * 9 + 8 * 2 - 1,
{
    (61, 33)
}

} // verus!
