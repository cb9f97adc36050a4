//! What the four swipes do to the cells of a board, as mathematics, and what holds of
//! them.
//!
//! A swipe to the left or right collapses every row, a swipe up or down every column;
//! left and up collapse toward the front of the line, right and down toward its back.

use vstd::prelude::*;
use crate::board::TileType;
use crate::grid::column;
use crate::grid::rectangular;
use crate::grid::width_of;
use crate::tiles::below_highest;
use crate::tiles::collapse;
use crate::tiles::collapse_fits;
use crate::tiles::collapse_settles;
use crate::tiles::lemma_changed_collapse_has_gap;
use crate::tiles::lemma_collapse_length;
use crate::tiles::lemma_collapse_twice;
use crate::tiles::lemma_collapse_twice_differs;
use crate::tiles::lemma_low_ranks_collapse;

verus! {

/// Every row of `cells` collapsed, toward its back where `toward_back` says so.
pub open spec fn merged_rows(cells: Seq<Seq<TileType>>, toward_back: bool) -> Seq<Seq<TileType>> {
    Seq::new(cells.len(), |r: int| collapse(cells[r], toward_back))
}

/// Every column of `cells` collapsed, toward its back where `toward_back` says so.
pub open spec fn merged_columns(cells: Seq<Seq<TileType>>, toward_back: bool) -> Seq<
    Seq<TileType>,
> {
    Seq::new(
        cells.len(),
        |r: int| Seq::new(width_of(cells), |c: int| collapse(column(cells, c), toward_back)[r]),
    )
}

/// Every row collapsed toward the left.
pub open spec fn merged_left(cells: Seq<Seq<TileType>>) -> Seq<Seq<TileType>> {
    merged_rows(cells, false)
}

/// Every row collapsed toward the right.
pub open spec fn merged_right(cells: Seq<Seq<TileType>>) -> Seq<Seq<TileType>> {
    merged_rows(cells, true)
}

/// Every column collapsed toward the top.
pub open spec fn merged_up(cells: Seq<Seq<TileType>>) -> Seq<Seq<TileType>> {
    merged_columns(cells, false)
}

/// Every column collapsed toward the bottom.
pub open spec fn merged_down(cells: Seq<Seq<TileType>>) -> Seq<Seq<TileType>> {
    merged_columns(cells, true)
}

/// Collapsing the rows in the given direction joins no pair of the highest rank.
pub open spec fn rows_fit(cells: Seq<Seq<TileType>>, toward_back: bool) -> bool {
    forall|r: int| 0 <= r < cells.len() ==> collapse_fits(#[trigger] cells[r], toward_back)
}

/// Collapsing the columns in the given direction joins no pair of the highest rank.
pub open spec fn columns_fit(cells: Seq<Seq<TileType>>, toward_back: bool) -> bool {
    forall|c: int|
        0 <= c < width_of(cells) ==> collapse_fits(#[trigger] column(cells, c), toward_back)
}

/// The rows can be collapsed toward the left.
pub open spec fn fits_left(cells: Seq<Seq<TileType>>) -> bool {
    rows_fit(cells, false)
}

/// The rows can be collapsed toward the right.
pub open spec fn fits_right(cells: Seq<Seq<TileType>>) -> bool {
    rows_fit(cells, true)
}

/// The columns can be collapsed toward the top.
pub open spec fn fits_up(cells: Seq<Seq<TileType>>) -> bool {
    columns_fit(cells, false)
}

/// The columns can be collapsed toward the bottom.
pub open spec fn fits_down(cells: Seq<Seq<TileType>>) -> bool {
    columns_fit(cells, true)
}

/// One pass over the rows in the given direction leaves no two equal tiles side by
/// side in a row.
pub open spec fn rows_settle(cells: Seq<Seq<TileType>>, toward_back: bool) -> bool {
    forall|r: int| 0 <= r < cells.len() ==> collapse_settles(#[trigger] cells[r], toward_back)
}

/// One pass over the columns in the given direction leaves no two equal tiles one
/// above the other.
pub open spec fn columns_settle(cells: Seq<Seq<TileType>>, toward_back: bool) -> bool {
    forall|c: int|
        0 <= c < width_of(cells) ==> collapse_settles(#[trigger] column(cells, c), toward_back)
}

/// The cell in row `row`, column `col` of `cells` exists and is empty.
pub open spec fn is_gap(cells: Seq<Seq<TileType>>, row: int, col: int) -> bool {
    &&& 0 <= row < cells.len()
    &&& 0 <= col < cells[row].len()
    &&& cells[row][col] == 0
}

/// Some cell of `cells` is empty.
pub open spec fn has_gap(cells: Seq<Seq<TileType>>) -> bool {
    exists|row: int, col: int| is_gap(cells, row, col)
}

/// No cell of `cells` holds the highest rank.
pub open spec fn ranks_below_highest(cells: Seq<Seq<TileType>>) -> bool {
    forall|r: int| 0 <= r < cells.len() ==> below_highest(#[trigger] cells[r])
}

/// Every row of rectangular cells is as long as the first.
pub proof fn lemma_row_lengths(cells: Seq<Seq<TileType>>)
    requires
        rectangular(cells),
    ensures
        forall|r: int| 0 <= r < cells.len() ==> (#[trigger] cells[r]).len() == width_of(cells),
{
    assert forall|r: int| 0 <= r < cells.len() implies (#[trigger] cells[r]).len() == width_of(
        cells,
    ) by {
        assert(cells[r].len() == cells[0].len());
    }
}

/// Column `c` of a board whose columns were collapsed is column `c` of the board,
/// collapsed.
pub proof fn lemma_column_of_merged(cells: Seq<Seq<TileType>>, toward_back: bool, c: int)
    requires
        0 <= c < width_of(cells),
    ensures
        column(merged_columns(cells, toward_back), c) == collapse(column(cells, c), toward_back),
{
    lemma_collapse_length(column(cells, c), toward_back);
    assert(column(merged_columns(cells, toward_back), c) =~= collapse(
        column(cells, c),
        toward_back,
    ));
}

/// A board without a tile of the highest rank can be swiped in every direction.
pub proof fn lemma_low_board_fits(cells: Seq<Seq<TileType>>)
    requires
        rectangular(cells),
        ranks_below_highest(cells),
    ensures
        fits_up(cells),
        fits_down(cells),
        fits_left(cells),
        fits_right(cells),
{
    lemma_low_board_fits_toward(cells, false);
    lemma_low_board_fits_toward(cells, true);
}

/// A board without a tile of the highest rank can be swiped along its rows and along
/// its columns, toward either end.
pub proof fn lemma_low_board_fits_toward(cells: Seq<Seq<TileType>>, toward_back: bool)
    requires
        rectangular(cells),
        ranks_below_highest(cells),
    ensures
        rows_fit(cells, toward_back),
        columns_fit(cells, toward_back),
{
    lemma_row_lengths(cells);
    assert forall|r: int| 0 <= r < cells.len() implies collapse_fits(
        #[trigger] cells[r],
        toward_back,
    ) by {
        assert(below_highest(cells[r]));
        lemma_low_ranks_collapse(cells[r], toward_back);
    }
    assert forall|c: int| 0 <= c < width_of(cells) implies collapse_fits(
        #[trigger] column(cells, c),
        toward_back,
    ) by {
        let line = column(cells, c);
        assert forall|i: int| 0 <= i < line.len() implies #[trigger] line[i] < TileType::MAX by {
            assert(below_highest(cells[i]));
        }
        lemma_low_ranks_collapse(line, toward_back);
    }
}

/// A swipe to the left or right that changes the board leaves an empty cell.
pub proof fn lemma_changed_rows_have_gap(cells: Seq<Seq<TileType>>, toward_back: bool)
    requires
        merged_rows(cells, toward_back) != cells,
    ensures
        has_gap(merged_rows(cells, toward_back)),
{
    let moved = merged_rows(cells, toward_back);
    if forall|r: int| 0 <= r < cells.len() ==> moved[r] == cells[r] {
        assert(moved =~= cells);
    }
    let r = choose|r: int| 0 <= r < cells.len() && moved[r] != cells[r];
    lemma_changed_collapse_has_gap(cells[r], toward_back);
    lemma_collapse_length(cells[r], toward_back);
    let i = choose|i: int|
        0 <= i < cells[r].len() && #[trigger] collapse(cells[r], toward_back)[i] == 0;
    assert(is_gap(moved, r, i));
}

/// A swipe up or down that changes the board leaves an empty cell.
pub proof fn lemma_changed_columns_have_gap(cells: Seq<Seq<TileType>>, toward_back: bool)
    requires
        rectangular(cells),
        merged_columns(cells, toward_back) != cells,
    ensures
        has_gap(merged_columns(cells, toward_back)),
{
    let moved = merged_columns(cells, toward_back);
    lemma_row_lengths(cells);
    if forall|r: int, c: int|
        0 <= r < cells.len() && 0 <= c < width_of(cells) ==> moved[r][c] == cells[r][c] {
        assert(moved =~~= cells);
    }
    let (r, c) = choose|r: int, c: int|
        0 <= r < cells.len() && 0 <= c < width_of(cells) && moved[r][c] != cells[r][c];
    let line = column(cells, c);
    lemma_collapse_length(line, toward_back);
    if collapse(line, toward_back) == line {
        assert(line[r] == cells[r][c]);
    }
    lemma_changed_collapse_has_gap(line, toward_back);
    let i = choose|i: int| 0 <= i < line.len() && #[trigger] collapse(line, toward_back)[i] == 0;
    assert(is_gap(moved, i, c));
}

/// Swiping to the left twice, or to the right twice, gives what swiping once gives,
/// provided the first swipe left no two equal tiles side by side in a row.
pub proof fn lemma_merge_rows_twice(cells: Seq<Seq<TileType>>, toward_back: bool)
    requires
        rows_fit(cells, toward_back),
        rows_settle(cells, toward_back),
    ensures
        merged_rows(merged_rows(cells, toward_back), toward_back) == merged_rows(
            cells,
            toward_back,
        ),
{
    let once = merged_rows(cells, toward_back);
    assert forall|r: int| 0 <= r < cells.len() implies #[trigger] merged_rows(once, toward_back)[r]
        == once[r] by {
        assert(collapse_fits(cells[r], toward_back) && collapse_settles(cells[r], toward_back));
        lemma_collapse_twice(cells[r], toward_back);
    }
    assert(merged_rows(once, toward_back) =~= once);
}

/// Swiping up twice, or down twice, gives what swiping once gives, provided the first
/// swipe left no two equal tiles one above the other.
pub proof fn lemma_merge_columns_twice(cells: Seq<Seq<TileType>>, toward_back: bool)
    requires
        columns_fit(cells, toward_back),
        columns_settle(cells, toward_back),
    ensures
        merged_columns(merged_columns(cells, toward_back), toward_back) == merged_columns(
            cells,
            toward_back,
        ),
{
    let once = merged_columns(cells, toward_back);
    if cells.len() > 0 {
        assert(width_of(once) == width_of(cells));
        assert forall|r: int, c: int|
            0 <= r < cells.len() && 0 <= c < width_of(cells) implies #[trigger] merged_columns(
            once,
            toward_back,
        )[r][c] == once[r][c] by {
            let line = column(cells, c);
            lemma_column_of_merged(cells, toward_back, c);
            assert(collapse_fits(line, toward_back) && collapse_settles(line, toward_back));
            lemma_collapse_twice(line, toward_back);
        }
    }
    assert(merged_columns(once, toward_back) =~~= once);
}

/// Where the first swipe to the left or right leaves two equal tiles side by side in
/// some row, the second swipe joins them: swiping twice then differs from swiping once.
pub proof fn lemma_merge_rows_twice_differs(cells: Seq<Seq<TileType>>, toward_back: bool)
    requires
        rows_fit(cells, toward_back),
        !rows_settle(cells, toward_back),
    ensures
        merged_rows(merged_rows(cells, toward_back), toward_back) != merged_rows(
            cells,
            toward_back,
        ),
{
    let once = merged_rows(cells, toward_back);
    let r = choose|r: int|
        0 <= r < cells.len() && !collapse_settles(#[trigger] cells[r], toward_back);
    assert(collapse_fits(cells[r], toward_back));
    lemma_collapse_twice_differs(cells[r], toward_back);
    assert(merged_rows(once, toward_back)[r] != once[r]);
}

/// Where the first swipe up or down leaves two equal tiles one above the other in some
/// column, the second swipe joins them: swiping twice then differs from swiping once.
pub proof fn lemma_merge_columns_twice_differs(cells: Seq<Seq<TileType>>, toward_back: bool)
    requires
        columns_fit(cells, toward_back),
        !columns_settle(cells, toward_back),
    ensures
        merged_columns(merged_columns(cells, toward_back), toward_back) != merged_columns(
            cells,
            toward_back,
        ),
{
    let once = merged_columns(cells, toward_back);
    let c = choose|c: int|
        0 <= c < width_of(cells) && !collapse_settles(#[trigger] column(cells, c), toward_back);
    let line = column(cells, c);
    assert(collapse_fits(line, toward_back));
    assert(width_of(once) == width_of(cells));
    lemma_collapse_twice_differs(line, toward_back);
    lemma_column_of_merged(cells, toward_back, c);
    lemma_column_of_merged(once, toward_back, c);
    if merged_columns(once, toward_back) == once {
        assert(column(merged_columns(once, toward_back), c) == column(once, c));
    }
}

} // verus!
