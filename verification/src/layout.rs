//! Geometry of the button matrix and the numbering of its keys.

use vstd::prelude::*;

verus! {

/// Number of row lines of the matrix.
pub const ROW_COUNT: usize = 10;

/// Number of column lines of the matrix.
pub const COLUMN_COUNT: usize = 5;

/// Number of keys; every key index lies below it.
pub const KEY_COUNT: u8 = 50;

/// The index of the key at the crossing of `column` and `row`: keys are
/// numbered from the top-left corner, left to right, then top to bottom.
pub open spec fn key_index_of(column: int, row: int) -> int {
    column + COLUMN_COUNT * row
}

/// Computes the index of the key at the crossing of `column` and `row`.
pub fn key_index(column: usize, row: usize) -> (key: u8)
    requires
        column < COLUMN_COUNT,
        row < ROW_COUNT,
    ensures
        key == key_index_of(column as int, row as int),
        key < KEY_COUNT,
{
    (column + COLUMN_COUNT * row) as u8
}

/// Every key index belongs to exactly one crossing of the matrix: the one in
/// column `key % COLUMN_COUNT` and row `key / COLUMN_COUNT`.
pub proof fn lemma_key_index_bijective(key: int)
    requires
        0 <= key < KEY_COUNT,
    ensures
        0 <= key % (COLUMN_COUNT as int) < COLUMN_COUNT,
        0 <= key / (COLUMN_COUNT as int) < ROW_COUNT,
        key_index_of(key % (COLUMN_COUNT as int), key / (COLUMN_COUNT as int)) == key,
        forall|column: int, row: int|
            0 <= column < COLUMN_COUNT && 0 <= row < ROW_COUNT && #[trigger] key_index_of(
                column,
                row,
            ) == key ==> column == key % (COLUMN_COUNT as int) && row == key / (
            COLUMN_COUNT as int),
{
}

/// The index of every crossing is a key index below `KEY_COUNT`.
pub proof fn lemma_key_index_in_range(column: int, row: int)
    requires
        0 <= column < COLUMN_COUNT,
        0 <= row < ROW_COUNT,
    ensures
        0 <= key_index_of(column, row) < KEY_COUNT,
        key_index_of(column, row) % (COLUMN_COUNT as int) == column,
        key_index_of(column, row) / (COLUMN_COUNT as int) == row,
{
}

} // verus!
