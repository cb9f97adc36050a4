//! The game board: a square grid of tile ranks that collapses in four directions and
//! takes new tiles on its empty cells.

use vstd::prelude::*;
use crate::chance::choose_position;
use crate::chance::choose_weighted_rank;
use crate::grid::cloned_row;
use crate::grid::column;
use crate::grid::rectangular;
use crate::grid::rows_of;
use crate::grid::width_of;
use crate::grid::with_cell;
use crate::grid::DataGrid;
use crate::grid::MatrixError;
use crate::moves::columns_fit;
use crate::moves::fits_down;
use crate::moves::fits_left;
use crate::moves::fits_right;
use crate::moves::fits_up;
use crate::moves::has_gap;
use crate::moves::is_gap;
use crate::moves::lemma_row_lengths;
use crate::moves::merged_columns;
use crate::moves::merged_down;
use crate::moves::merged_left;
use crate::moves::merged_right;
use crate::moves::merged_rows;
use crate::moves::merged_up;
use crate::moves::rows_fit;
use crate::tiles::collapse;
use crate::tiles::collapse_fits;
use crate::tiles::compact;
use crate::tiles::facing;
use crate::tiles::lemma_collapse_length;
use crate::tiles::lemma_compact_step;
use crate::tiles::lemma_join_front;
use crate::tiles::lemma_keep_front;
use crate::tiles::lemma_merge_line_shape;
use crate::tiles::line_fits;
use crate::tiles::merge_line;
use crate::tiles::merge_pairs;
use crate::tiles::pairs_fit;

verus! {

/// The rank of a tile: `n` stands for the value `2^n`, and 0 for an empty cell.
pub type TileType = u8;

/// A square board of tile ranks.
#[derive(Debug)]
pub struct Board {
    board: DataGrid<TileType>,
}

/// Why a board operation was refused.
#[derive(Debug)]
pub enum BoardError {
    /// The board is full: no cell is left for a new tile.
    AddRandomTileError,
}

/// A board of `size` rows and columns without any tile.
pub open spec fn empty_cells(size: nat) -> Seq<Seq<TileType>> {
    Seq::new(size, |r: int| Seq::new(size, |c: int| 0))
}

/// Position `a` comes before position `b` when the board is read row by row from the
/// top, each row from the left. A position is written (column, row).
pub open spec fn reads_before(a: (usize, usize), b: (usize, usize)) -> bool {
    a.1 < b.1 || (a.1 == b.1 && a.0 < b.0)
}

/// A rank that a new tile may have: 1, shown as 2, or 2, shown as 4.
pub open spec fn is_starting_rank(rank: TileType) -> bool {
    rank == 1 || rank == 2
}

/// `after` is `before` with one empty cell filled by a tile of a starting rank.
pub open spec fn tile_added(before: Seq<Seq<TileType>>, after: Seq<Seq<TileType>>) -> bool {
    exists|row: int, col: int, rank: TileType|
        is_gap(before, row, col) && is_starting_rank(rank) && after == #[trigger] with_cell(
            before,
            row,
            col,
            rank,
        )
}

/// On a board with exactly one empty cell, a new tile can only land on that cell.
pub proof fn lemma_single_gap_is_filled(
    before: Seq<Seq<TileType>>,
    after: Seq<Seq<TileType>>,
    row: int,
    col: int,
)
    requires
        is_gap(before, row, col),
        forall|r: int, c: int| is_gap(before, r, c) ==> r == row && c == col,
        tile_added(before, after),
    ensures
        after == with_cell(before, row, col, 1) || after == with_cell(before, row, col, 2),
{
    let (r, c, rank) = choose|r: int, c: int, rank: TileType|
        is_gap(before, r, c) && is_starting_rank(rank) && after == #[trigger] with_cell(
            before,
            r,
            c,
            rank,
        );
    assert(is_gap(before, r, c));
}

/// A clone of a line of tiles is that line.
pub proof fn lemma_cloned_tiles(src: Seq<TileType>, dst: Seq<TileType>)
    requires
        cloned_row(src, dst),
    ensures
        dst == src,
{
    assert(dst =~= src);
}

/// The tile that waits for an equal neighbour, as a sequence: nothing while no tile
/// waits.
spec fn waiting(carry: TileType) -> Seq<TileType> {
    if carry == 0 {
        Seq::empty()
    } else {
        seq![carry]
    }
}

/// `tiles` as seen from the end that it collapses toward: turned round where that is
/// its back.
fn turned(tiles: Vec<TileType>, toward_back: bool) -> (seen: Vec<TileType>)
    ensures
        seen@ == facing(tiles@, toward_back),
{
    if !toward_back {
        return tiles;
    }
    let mut seen: Vec<TileType> = Vec::with_capacity(tiles.len());
    let mut i: usize = tiles.len();
    while i > 0
        invariant
            i <= tiles@.len(),
            seen@.len() == tiles@.len() - i,
            forall|k: int| 0 <= k < seen@.len() ==> seen@[k] == tiles@[tiles@.len() - 1 - k],
        decreases i,
    {
        i -= 1;
        seen.push(tiles[i]);
    }
    assert(seen@ =~= tiles@.reverse());
    seen
}

impl View for Board {
    type V = Seq<Seq<TileType>>;

    /// The ranks on the board, row by row from the top.
    closed spec fn view(&self) -> Seq<Seq<TileType>> {
        self.board@
    }
}

impl Board {
    /// The invariant of every board: it is square.
    pub open spec fn wf(&self) -> bool {
        &&& rectangular(self@)
        &&& width_of(self@) == self@.len()
    }

    /// The number of rows, which is the number of columns.
    pub open spec fn size(&self) -> nat {
        self@.len()
    }

    /// A board of `size` rows and columns without any tile.
    pub fn new(size: usize) -> (board: Board)
        ensures
            board.wf(),
            board@ == empty_cells(size as nat),
    {
        let board = Board { board: DataGrid::new(size, size, 0) };
        assert(board@ =~~= empty_cells(size as nat));
        board
    }

    /// The board that holds the cells of a square grid.
    pub fn from_grid(grid: DataGrid<TileType>) -> (board: Board)
        requires
            grid.wf(),
            grid.height() == grid.width(),
        ensures
            board.wf(),
            board@ == grid@,
    {
        Board { board: grid }
    }

    /// Writes `value` into the cell in row `row`, column `column`.
    pub fn place_item_in_board(
        &mut self,
        row: usize,
        column: usize,
        value: TileType,
    ) -> (result: Result<(), MatrixError>)
        requires
            old(self).wf(),
        ensures
            final(self).wf(),
            match result {
                Ok(()) => {
                    &&& row < old(self).size()
                    &&& column < old(self).size()
                    &&& final(self)@ == with_cell(old(self)@, row as int, column as int, value)
                },
                Err(e) => {
                    &&& e is IndexNotFound
                    &&& row >= old(self).size() || column >= old(self).size()
                    &&& final(self)@ == old(self)@
                },
            },
    {
        let result = self.board.update_single_position(row, column, value);
        proof {
            lemma_row_lengths(old(self)@);
            if result is Ok {
                lemma_row_lengths(self@);
            }
        }
        result
    }

    /// Collapses every column toward the top, as a swipe upward does.
    pub fn merge_up(&mut self)
        requires
            old(self).wf(),
            fits_up(old(self)@),
        ensures
            final(self).wf(),
            final(self)@ == merged_up(old(self)@),
    {
        self.merge_columns(false)
    }

    /// Collapses every column toward the bottom, as a swipe downward does.
    pub fn merge_down(&mut self)
        requires
            old(self).wf(),
            fits_down(old(self)@),
        ensures
            final(self).wf(),
            final(self)@ == merged_down(old(self)@),
    {
        self.merge_columns(true)
    }

    /// Collapses every row toward the left, as a swipe to the left does.
    pub fn merge_left(&mut self)
        requires
            old(self).wf(),
            fits_left(old(self)@),
        ensures
            final(self).wf(),
            final(self)@ == merged_left(old(self)@),
    {
        self.merge_rows(false)
    }

    /// Collapses every row toward the right, as a swipe to the right does.
    pub fn merge_right(&mut self)
        requires
            old(self).wf(),
            fits_right(old(self)@),
        ensures
            final(self).wf(),
            final(self)@ == merged_right(old(self)@),
    {
        self.merge_rows(true)
    }

    /// Takes each column out, collapses it and writes it back.
    fn merge_columns(&mut self, toward_back: bool)
        requires
            old(self).wf(),
            columns_fit(old(self)@, toward_back),
        ensures
            final(self).wf(),
            final(self)@ == merged_columns(old(self)@, toward_back),
    {
        let width = self.board.get_width();
        let mut i: usize = 0;
        while i < width
            invariant
                old(self).wf(),
                columns_fit(old(self)@, toward_back),
                self.wf(),
                self@.len() == old(self)@.len(),
                width == width_of(old(self)@),
                i <= width,
                forall|r: int, c: int|
                    0 <= r < self@.len() && 0 <= c < i ==> #[trigger] self@[r][c] == collapse(
                        column(old(self)@, c),
                        toward_back,
                    )[r],
                forall|r: int, c: int|
                    0 <= r < self@.len() && i <= c < width ==> #[trigger] self@[r][c] == old(
                        self,
                    )@[r][c],
            decreases width - i,
        {
            let ghost before = self@;
            let tiles = self.board.get_column(i).unwrap();
            proof {
                lemma_row_lengths(before);
                lemma_cloned_tiles(column(before, i as int), tiles@);
                assert(column(before, i as int) =~= column(old(self)@, i as int));
                lemma_collapse_length(tiles@, toward_back);
            }
            let merged = Board::collapse_tiles(tiles, toward_back);
            self.board.update_column(i, merged).unwrap();
            proof {
                lemma_row_lengths(self@);
            }
            i += 1;
        }
        proof {
            lemma_row_lengths(self@);
            assert(self@ =~~= merged_columns(old(self)@, toward_back));
        }
    }

    /// Takes each row out, collapses it and writes it back.
    fn merge_rows(&mut self, toward_back: bool)
        requires
            old(self).wf(),
            rows_fit(old(self)@, toward_back),
        ensures
            final(self).wf(),
            final(self)@ == merged_rows(old(self)@, toward_back),
    {
        let height = self.board.get_height();
        let mut i: usize = 0;
        while i < height
            invariant
                old(self).wf(),
                rows_fit(old(self)@, toward_back),
                self.wf(),
                height == old(self)@.len(),
                self@.len() == height,
                i <= height,
                forall|r: int|
                    0 <= r < i ==> #[trigger] self@[r] == collapse(old(self)@[r], toward_back),
                forall|r: int| i <= r < height ==> #[trigger] self@[r] == old(self)@[r],
            decreases height - i,
        {
            let ghost before = self@;
            let tiles = self.board.get_row(i).unwrap();
            proof {
                lemma_row_lengths(before);
                lemma_cloned_tiles(before[i as int], tiles@);
                lemma_collapse_length(tiles@, toward_back);
            }
            let merged = Board::collapse_tiles(tiles, toward_back);
            self.board.update_row(i, merged).unwrap();
            proof {
                assert forall|r: int, k: int|
                    0 <= r < self@.len() && 0 <= k < self@.len() implies self@[r].len()
                    == self@[k].len() by {
                    assert(before[r].len() == before[k].len());
                }
            }
            i += 1;
        }
        assert(self@ =~= merged_rows(old(self)@, toward_back));
    }

    /// Collapses `tiles` toward its front, or toward its back: there the line is turned
    /// round, collapsed toward the front, and turned back.
    fn collapse_tiles(tiles: Vec<TileType>, toward_back: bool) -> (merged: Vec<TileType>)
        requires
            collapse_fits(tiles@, toward_back),
        ensures
            merged@ == collapse(tiles@, toward_back),
    {
        let seen = turned(tiles, toward_back);
        turned(Board::merge_tiles(seen.as_slice()), toward_back)
    }

    /// Collapses one line toward its front: gaps close, equal neighbours join pairwise
    /// into one tile of the next rank, and the line is filled up with empty cells.
    pub fn merge_tiles(tiles: &[TileType]) -> (merged: Vec<TileType>)
        requires
            line_fits(tiles@),
        ensures
            merged@ == merge_line(tiles@),
    {
        if tiles.is_empty() {
            assert(merge_line(tiles@) =~= Seq::empty());
            return Vec::new();
        }
        let mut last_seen_tile: TileType = tiles[0];
        let mut result: Vec<TileType> = Vec::with_capacity(tiles.len());
        proof {
            lemma_compact_step(tiles@, 0);
            assert(tiles@.skip(0) =~= tiles@);
            assert(waiting(last_seen_tile) + compact(tiles@.skip(1)) =~= compact(tiles@));
            assert(result@ + merge_pairs(compact(tiles@)) =~= merge_pairs(compact(tiles@)));
        }
        let mut i: usize = 1;
        while i < tiles.len()
            invariant
                1 <= i <= tiles@.len(),
                merge_pairs(compact(tiles@)) == result@ + merge_pairs(
                    waiting(last_seen_tile) + compact(tiles@.skip(i as int)),
                ),
                pairs_fit(waiting(last_seen_tile) + compact(tiles@.skip(i as int))),
                result@.len() < i,
            decreases tiles@.len() - i,
        {
            let tile = tiles[i];
            let ghost rest = compact(tiles@.skip(i + 1));
            proof {
                lemma_compact_step(tiles@, i as int);
            }
            if tile != 0 {
                if tile == last_seen_tile {
                    proof {
                        lemma_join_front(tile, rest);
                        assert(waiting(last_seen_tile) + (seq![tile] + rest) =~= seq![tile, tile]
                            + rest);
                        assert(waiting(0) + rest =~= rest);
                        assert(result@.push((tile + 1) as TileType) + merge_pairs(rest) =~= result@
                            + (seq![(tile + 1) as TileType] + merge_pairs(rest)));
                    }
                    result.push(tile + 1);
                    last_seen_tile = 0;
                } else {
                    if last_seen_tile != 0 {
                        proof {
                            lemma_keep_front(last_seen_tile, seq![tile] + rest);
                            assert(result@.push(last_seen_tile) + merge_pairs(seq![tile] + rest)
                                =~= result@ + (seq![last_seen_tile] + merge_pairs(
                                seq![tile] + rest,
                            )));
                        }
                        result.push(last_seen_tile);
                    } else {
                        assert(waiting(last_seen_tile) + (seq![tile] + rest) =~= seq![tile] + rest);
                    }
                    last_seen_tile = tile;
                }
            }
            i += 1;
        }
        proof {
            assert(compact(tiles@.skip(i as int)) =~= Seq::empty());
            assert(waiting(last_seen_tile) + Seq::<TileType>::empty() =~= waiting(last_seen_tile));
            if last_seen_tile != 0 {
                lemma_keep_front(last_seen_tile, Seq::empty());
                assert(seq![last_seen_tile] + Seq::<TileType>::empty() =~= seq![last_seen_tile]);
            }
            assert(merge_pairs(waiting(last_seen_tile)) =~= waiting(last_seen_tile));
            lemma_merge_line_shape(tiles@);
        }
        result.push(last_seen_tile);
        let ghost joined = merge_pairs(compact(tiles@));
        while result.len() < tiles.len()
            invariant
                joined == merge_pairs(compact(tiles@)),
                joined.len() <= result@.len() <= tiles@.len(),
                forall|k: int| 0 <= k < joined.len() ==> result@[k] == joined[k],
                forall|k: int| joined.len() <= k < result@.len() ==> result@[k] == 0,
            decreases tiles@.len() - result@.len(),
        {
            result.push(0);
        }
        assert(result@ =~= merge_line(tiles@));
        result
    }

    /// Whether `tiles` can be collapsed: whether no two tiles that would join already
    /// have the highest rank.
    pub fn merge_fits(tiles: &[TileType]) -> (fits: bool)
        ensures
            fits == line_fits(tiles@),
    {
        if tiles.is_empty() {
            return true;
        }
        let mut last_seen_tile: TileType = tiles[0];
        proof {
            lemma_compact_step(tiles@, 0);
            assert(tiles@.skip(0) =~= tiles@);
            assert(waiting(last_seen_tile) + compact(tiles@.skip(1)) =~= compact(tiles@));
        }
        let mut i: usize = 1;
        while i < tiles.len()
            invariant
                1 <= i <= tiles@.len(),
                line_fits(tiles@) == pairs_fit(
                    waiting(last_seen_tile) + compact(tiles@.skip(i as int)),
                ),
            decreases tiles@.len() - i,
        {
            let tile = tiles[i];
            let ghost rest = compact(tiles@.skip(i + 1));
            proof {
                lemma_compact_step(tiles@, i as int);
            }
            if tile != 0 {
                if tile == last_seen_tile {
                    proof {
                        lemma_join_front(tile, rest);
                        assert(waiting(last_seen_tile) + (seq![tile] + rest) =~= seq![tile, tile]
                            + rest);
                        assert(waiting(0) + rest =~= rest);
                    }
                    if tile == TileType::MAX {
                        return false;
                    }
                    last_seen_tile = 0;
                } else {
                    proof {
                        if last_seen_tile != 0 {
                            lemma_keep_front(last_seen_tile, seq![tile] + rest);
                        } else {
                            assert(waiting(last_seen_tile) + (seq![tile] + rest) =~= seq![tile]
                                + rest);
                        }
                    }
                    last_seen_tile = tile;
                }
            }
            i += 1;
        }
        proof {
            assert(compact(tiles@.skip(i as int)) =~= Seq::empty());
            assert(waiting(last_seen_tile) + Seq::<TileType>::empty() =~= waiting(last_seen_tile));
        }
        true
    }

    /// Whether a swipe upward can be made: whether every column can be collapsed
    /// toward the top.
    pub fn merge_up_fits(&self) -> (fits: bool)
        requires
            self.wf(),
        ensures
            fits == fits_up(self@),
    {
        self.can_merge_columns(false)
    }

    /// Whether a swipe downward can be made: whether every column can be collapsed
    /// toward the bottom.
    pub fn merge_down_fits(&self) -> (fits: bool)
        requires
            self.wf(),
        ensures
            fits == fits_down(self@),
    {
        self.can_merge_columns(true)
    }

    /// Whether a swipe to the left can be made: whether every row can be collapsed
    /// toward the left.
    pub fn merge_left_fits(&self) -> (fits: bool)
        ensures
            fits == fits_left(self@),
    {
        self.can_merge_rows(false)
    }

    /// Whether a swipe to the right can be made: whether every row can be collapsed
    /// toward the right.
    pub fn merge_right_fits(&self) -> (fits: bool)
        ensures
            fits == fits_right(self@),
    {
        self.can_merge_rows(true)
    }

    /// Whether every column can be collapsed in the given direction.
    fn can_merge_columns(&self, toward_back: bool) -> (fits: bool)
        requires
            self.wf(),
        ensures
            fits == columns_fit(self@, toward_back),
    {
        let width = self.board.get_width();
        let mut i: usize = 0;
        while i < width
            invariant
                self.wf(),
                width == width_of(self@),
                i <= width,
                forall|c: int|
                    0 <= c < i ==> collapse_fits(#[trigger] column(self@, c), toward_back),
            decreases width - i,
        {
            let tiles = self.board.get_column(i).unwrap();
            proof {
                lemma_cloned_tiles(column(self@, i as int), tiles@);
            }
            if !Board::merge_fits(turned(tiles, toward_back).as_slice()) {
                return false;
            }
            i += 1;
        }
        true
    }

    /// Whether every row can be collapsed in the given direction.
    fn can_merge_rows(&self, toward_back: bool) -> (fits: bool)
        ensures
            fits == rows_fit(self@, toward_back),
    {
        let height = self.board.get_height();
        let mut i: usize = 0;
        while i < height
            invariant
                height == self@.len(),
                i <= height,
                forall|r: int| 0 <= r < i ==> collapse_fits(#[trigger] self@[r], toward_back),
            decreases height - i,
        {
            let tiles = self.board.get_row(i).unwrap();
            proof {
                lemma_cloned_tiles(self@[i as int], tiles@);
            }
            if !Board::merge_fits(turned(tiles, toward_back).as_slice()) {
                return false;
            }
            i += 1;
        }
        true
    }

    /// The positions of the empty cells, each written (column, row), in reading order:
    /// row by row from the top, each row from the left.
    pub fn empty_positions(&self) -> (positions: Vec<(usize, usize)>)
        ensures
            forall|i: int|
                0 <= i < positions@.len() ==> is_gap(
                    self@,
                    (#[trigger] positions@[i]).1 as int,
                    positions@[i].0 as int,
                ),
            forall|row: int, col: int|
                is_gap(self@, row, col) ==> positions@.contains((col as usize, row as usize)),
            forall|i: int, j: int|
                0 <= i < j < positions@.len() ==> reads_before(positions@[i], positions@[j]),
    {
        let rows = self.board.get_values();
        let mut positions: Vec<(usize, usize)> = Vec::new();
        let mut y: usize = 0;
        while y < rows.len()
            invariant
                rows_of(*rows) == self@,
                y <= rows@.len(),
                forall|i: int|
                    0 <= i < positions@.len() ==> is_gap(
                        self@,
                        (#[trigger] positions@[i]).1 as int,
                        positions@[i].0 as int,
                    ),
                forall|i: int| 0 <= i < positions@.len() ==> (#[trigger] positions@[i]).1 < y,
                forall|row: int, col: int|
                    is_gap(self@, row, col) && row < y ==> positions@.contains(
                        (col as usize, row as usize),
                    ),
                forall|i: int, j: int|
                    0 <= i < j < positions@.len() ==> reads_before(positions@[i], positions@[j]),
            decreases rows@.len() - y,
        {
            let row = &rows[y];
            assert(row@ == self@[y as int]);
            let mut x: usize = 0;
            while x < row.len()
                invariant
                    rows_of(*rows) == self@,
                    y < rows@.len(),
                    row@ == self@[y as int],
                    x <= row@.len(),
                    forall|i: int|
                        0 <= i < positions@.len() ==> is_gap(
                            self@,
                            (#[trigger] positions@[i]).1 as int,
                            positions@[i].0 as int,
                        ),
                    forall|i: int|
                        0 <= i < positions@.len() ==> (#[trigger] positions@[i]).1 < y || (
                        positions@[i].1 == y && positions@[i].0 < x),
                    forall|row: int, col: int|
                        is_gap(self@, row, col) && (row < y || (row == y && col < x))
                            ==> positions@.contains((col as usize, row as usize)),
                    forall|i: int, j: int|
                        0 <= i < j < positions@.len() ==> reads_before(
                            positions@[i],
                            positions@[j],
                        ),
                decreases row@.len() - x,
            {
                if row[x] == 0 {
                    let ghost earlier = positions@;
                    positions.push((x, y));
                    proof {
                        assert forall|r: int, c: int|
                            is_gap(self@, r, c) && (r < y || (r == y && c < x + 1))
                            implies positions@.contains((c as usize, r as usize)) by {
                            if r == y && c == x {
                                assert(positions@[earlier.len() as int] == (x, y));
                            } else {
                                let k = choose|k: int|
                                    0 <= k < earlier.len() && earlier[k] == (
                                        c as usize,
                                        r as usize,
                                    );
                                assert(positions@[k] == (c as usize, r as usize));
                            }
                        }
                    }
                }
                x += 1;
            }
            y += 1;
        }
        positions
    }

    /// Puts a new tile on a random empty cell. Its rank is 1 or 2, drawn so that 1 is
    /// three times as likely as 2. Fails, and changes nothing, when no cell is empty.
    pub fn add_random_tile(&mut self) -> (result: Result<(), BoardError>)
        requires
            old(self).wf(),
        ensures
            final(self).wf(),
            match result {
                Ok(()) => has_gap(old(self)@) && tile_added(old(self)@, final(self)@),
                Err(BoardError::AddRandomTileError) => {
                    &&& !has_gap(old(self)@)
                    &&& final(self)@ == old(self)@
                },
            },
    {
        let empty_positions = self.empty_positions();
        let position = choose_position(&empty_positions);
        let rank = match position {
            Some(_) => {
                let ranks: Vec<TileType> = vec![1, 2];
                choose_weighted_rank(&ranks)
            },
            None => None,
        };
        proof {
            match position {
                Some(pos) => {
                    assert(is_gap(self@, pos.1 as int, pos.0 as int));
                    assert(is_starting_rank(rank->0));
                    lemma_row_lengths(self@);
                },
                None => {
                    assert forall|row: int, col: int| !is_gap(self@, row, col) by {
                        if is_gap(self@, row, col) {
                            assert(empty_positions@.contains((col as usize, row as usize)));
                        }
                    }
                },
            }
        }
        self.add_drawn_tile(position, rank)
    }

    /// Puts the tile that was drawn on the board: a tile of rank `rank` on the cell at
    /// `position`, which is written (column, row). Fails, and changes nothing, when no
    /// position was drawn because no cell was empty.
    pub fn add_drawn_tile(
        &mut self,
        position: Option<(usize, usize)>,
        rank: Option<TileType>,
    ) -> (result: Result<(), BoardError>)
        requires
            old(self).wf(),
            position matches Some(pos) ==> rank is Some && pos.0 < old(self).size() && pos.1 < old(
                self,
            ).size(),
        ensures
            final(self).wf(),
            match position {
                Some(pos) => {
                    &&& result is Ok
                    &&& final(self)@ == with_cell(old(self)@, pos.1 as int, pos.0 as int, rank->0)
                },
                None => {
                    &&& result is Err
                    &&& final(self)@ == old(self)@
                },
            },
    {
        if let Some(pos) = position {
            let value_to_add = rank.unwrap();
            self.place_item_in_board(pos.1, pos.0, value_to_add).unwrap();
        } else {
            return Err(BoardError::AddRandomTileError);  // nowhere to insert tile
        }
        Ok(())
    }

    /// The ranks on the board, row by row, for reading.
    pub fn get_data_for_display(&self) -> (rows: &Vec<Vec<TileType>>)
        ensures
            rows_of(*rows) == self@,
    {
        self.board.get_values()
    }
}

impl Clone for Board {
    /// A board with the same ranks in the same cells.
    fn clone(&self) -> (copy: Self)
        ensures
            copy@ == self@,
    {
        let copy = Board { board: self.board.clone() };
        assert(copy@ =~~= self@);
        copy
    }
}

impl PartialEq for Board {
    /// Two boards are equal when every cell of one holds the rank of the same cell of
    /// the other.
    fn eq(&self, other: &Self) -> (equal: bool) {
        let equal = self.board == other.board;
        proof {
            if equal {
                assert(self@ =~~= other@);
            }
        }
        equal
    }
}

impl vstd::std_specs::cmp::PartialEqSpecImpl for Board {
    open spec fn obeys_eq_spec() -> bool {
        true
    }

    open spec fn eq_spec(&self, other: &Self) -> bool {
        self@ == other@
    }
}

impl Eq for Board {}

} // verus!
