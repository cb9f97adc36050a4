//! The game: a board and the state around it, advanced one event at a time.

use vstd::prelude::*;
use crate::board::empty_cells;
use crate::board::tile_added;
use crate::board::Board;
use crate::board::TileType;
use crate::grid::rectangular;
use crate::grid::rows_of;
use crate::grid::width_of;
use crate::moves::fits_down;
use crate::moves::fits_left;
use crate::moves::fits_right;
use crate::moves::fits_up;
use crate::moves::has_gap;
use crate::moves::is_gap;
use crate::tiles::below_highest;
use crate::moves::columns_settle;
use crate::moves::lemma_changed_columns_have_gap;
use crate::moves::lemma_changed_rows_have_gap;
use crate::moves::lemma_low_board_fits;
use crate::moves::lemma_merge_columns_twice;
use crate::moves::lemma_merge_columns_twice_differs;
use crate::moves::lemma_merge_rows_twice;
use crate::moves::lemma_merge_rows_twice_differs;
use crate::moves::merged_down;
use crate::moves::merged_left;
use crate::moves::merged_right;
use crate::moves::merged_up;
use crate::moves::rows_settle;

verus! {

/// A game in progress. Handling an event consumes the game and gives the next one.
#[derive(Debug, Clone)]
pub struct Game {
    board: Board,
    score: u32,
    is_game_over: bool,
    game_over_reason: Option<String>,
}

/// What a player can ask of a game.
pub enum GameEvent {
    SwipeUp,
    SwipeDown,
    SwipeLeft,
    SwipeRight,
    Undo,
    SaveGame,
    LoadGame,
    NewGame,
}

/// Why an event could not be handled.
#[derive(Debug)]
pub enum GameError {
    /// A tile was due but the board had no empty cell.
    AddRandomTileError,
}

/// The event moves the tiles in one of the four directions.
pub open spec fn is_swipe(event: GameEvent) -> bool {
    event is SwipeUp || event is SwipeDown || event is SwipeLeft || event is SwipeRight
}

/// The events a game handles: the four swipes and the start of a new game.
pub open spec fn is_handled(event: GameEvent) -> bool {
    is_swipe(event) || event is NewGame
}

/// `cells` after the tiles moved as `event` asks; only a swipe moves them.
pub open spec fn swiped(cells: Seq<Seq<TileType>>, event: GameEvent) -> Seq<Seq<TileType>> {
    match event {
        GameEvent::SwipeUp => merged_up(cells),
        GameEvent::SwipeDown => merged_down(cells),
        GameEvent::SwipeLeft => merged_left(cells),
        GameEvent::SwipeRight => merged_right(cells),
        _ => cells,
    }
}

/// Moving the tiles of `cells` as `event` asks joins no pair of the highest rank.
pub open spec fn swipe_fits(cells: Seq<Seq<TileType>>, event: GameEvent) -> bool {
    match event {
        GameEvent::SwipeUp => fits_up(cells),
        GameEvent::SwipeDown => fits_down(cells),
        GameEvent::SwipeLeft => fits_left(cells),
        GameEvent::SwipeRight => fits_right(cells),
        _ => true,
    }
}

/// One move of the tiles of `cells` as `event` asks leaves no two equal tiles side by
/// side along the lines that moved.
pub open spec fn swipe_settles(cells: Seq<Seq<TileType>>, event: GameEvent) -> bool {
    match event {
        GameEvent::SwipeUp => columns_settle(cells, false),
        GameEvent::SwipeDown => columns_settle(cells, true),
        GameEvent::SwipeLeft => rows_settle(cells, false),
        GameEvent::SwipeRight => rows_settle(cells, true),
        _ => true,
    }
}

/// The same swipe made twice, with no new tile between, gives what the swipe made once
/// gives, provided the first left no two equal tiles side by side along the lines it
/// moved. Without that the second swipe joins what the first brought together.
pub proof fn lemma_swipe_twice(cells: Seq<Seq<TileType>>, event: GameEvent)
    requires
        swipe_fits(cells, event),
        swipe_settles(cells, event),
    ensures
        swiped(swiped(cells, event), event) == swiped(cells, event),
{
    match event {
        GameEvent::SwipeUp => lemma_merge_columns_twice(cells, false),
        GameEvent::SwipeDown => lemma_merge_columns_twice(cells, true),
        GameEvent::SwipeLeft => lemma_merge_rows_twice(cells, false),
        GameEvent::SwipeRight => lemma_merge_rows_twice(cells, true),
        _ => {},
    }
}

/// Where a swipe leaves two equal tiles side by side along a line that it moved, the
/// same swipe made again joins them: twice then differs from once.
pub proof fn lemma_swipe_twice_differs(cells: Seq<Seq<TileType>>, event: GameEvent)
    requires
        swipe_fits(cells, event),
        !swipe_settles(cells, event),
    ensures
        swiped(swiped(cells, event), event) != swiped(cells, event),
{
    match event {
        GameEvent::SwipeUp => lemma_merge_columns_twice_differs(cells, false),
        GameEvent::SwipeDown => lemma_merge_columns_twice_differs(cells, true),
        GameEvent::SwipeLeft => lemma_merge_rows_twice_differs(cells, false),
        GameEvent::SwipeRight => lemma_merge_rows_twice_differs(cells, true),
        _ => {},
    }
}

/// A swipe that changes a board leaves an empty cell on it, so a new tile always finds
/// room after a move.
pub proof fn lemma_changed_board_has_gap(cells: Seq<Seq<TileType>>, event: GameEvent)
    requires
        rectangular(cells),
        swiped(cells, event) != cells,
    ensures
        has_gap(swiped(cells, event)),
{
    match event {
        GameEvent::SwipeUp => lemma_changed_columns_have_gap(cells, false),
        GameEvent::SwipeDown => lemma_changed_columns_have_gap(cells, true),
        GameEvent::SwipeLeft => lemma_changed_rows_have_gap(cells, false),
        GameEvent::SwipeRight => lemma_changed_rows_have_gap(cells, true),
        _ => {},
    }
}

/// A board that holds nothing but its first tile can be swiped in every direction.
pub proof fn lemma_first_tile_fits(cells: Seq<Seq<TileType>>, event: GameEvent)
    requires
        tile_added(empty_cells(4), cells),
    ensures
        rectangular(cells),
        swipe_fits(cells, event),
{
    assert forall|r: int| 0 <= r < cells.len() implies below_highest(#[trigger] cells[r]) by {
        assert forall|c: int| 0 <= c < cells[r].len() implies #[trigger] cells[r][c]
            < TileType::MAX by {
            assert(empty_cells(4)[r][c] == 0);
        }
    }
    lemma_low_board_fits(cells);
}

impl View for Game {
    type V = Seq<Seq<TileType>>;

    /// The ranks on the board, row by row from the top.
    closed spec fn view(&self) -> Seq<Seq<TileType>> {
        self.board@
    }
}

impl Game {
    /// The invariant of every game: its board is square.
    pub open spec fn wf(&self) -> bool {
        &&& rectangular(self@)
        &&& width_of(self@) == self@.len()
    }

    /// The points collected so far.
    pub closed spec fn score(&self) -> u32 {
        self.score
    }

    /// Whether the game has ended.
    pub closed spec fn is_over(&self) -> bool {
        self.is_game_over
    }

    /// Why the game has ended, once it has.
    pub closed spec fn over_reason(&self) -> Option<String> {
        self.game_over_reason
    }

    /// What surrounds the board is as `other` has it.
    pub open spec fn same_standing(&self, other: &Game) -> bool {
        &&& self.score() == other.score()
        &&& self.is_over() == other.is_over()
        &&& self.over_reason() == other.over_reason()
    }

    /// The state of a game that has just begun: a board of four rows and columns with
    /// one tile, no points, not over.
    pub open spec fn just_begun(&self) -> bool {
        &&& tile_added(empty_cells(4), self@)
        &&& self.score() == 0
        &&& !self.is_over()
        &&& self.over_reason() is None
    }

    /// After the tiles have moved: a new tile if, and only if, the move changed the
    /// board held in `before`.
    fn settle_move(self, before: &Board) -> (result: Result<Game, GameError>)
        requires
            self.wf(),
            self@ != before@ ==> has_gap(self@),
        ensures
            result matches Ok(next) && next.wf() && next.same_standing(&self) && if self@
                == before@ {
                next@ == before@
            } else {
                tile_added(self@, next@)
            },
    {
        let mut game = self;
        if game.board != *before {
            match game.board.add_random_tile() {
                Ok(()) => {},
                Err(_) => {
                    return Err(GameError::AddRandomTileError);
                },
            }
        }
        Ok(game)
    }

    /// Applies `event` to the game and gives the game that follows. A swipe moves the
    /// tiles; if that changed the board, one new tile appears on an empty cell, and if
    /// it did not, none does. `NewGame` starts over.
    pub fn handle_event(self, event: GameEvent) -> (result: Result<Game, GameError>)
        requires
            self.wf(),
            is_handled(event),
            swipe_fits(self@, event),
        ensures
            result matches Ok(next) && next.wf() && if event is NewGame {
                next.just_begun()
            } else {
                &&& next.same_standing(&self)
                &&& if swiped(self@, event) == self@ {
                    next@ == self@
                } else {
                    tile_added(swiped(self@, event), next@)
                }
            },
    {
        let mut game = self;
        match event {
            GameEvent::SwipeUp => {
                let before = game.board.clone();
                game.board.merge_up();
                proof {
                    if game@ != before@ {
                        lemma_changed_board_has_gap(before@, event);
                    }
                }
                game.settle_move(&before)
            },
            GameEvent::SwipeDown => {
                let before = game.board.clone();
                game.board.merge_down();
                proof {
                    if game@ != before@ {
                        lemma_changed_board_has_gap(before@, event);
                    }
                }
                game.settle_move(&before)
            },
            GameEvent::SwipeLeft => {
                let before = game.board.clone();
                game.board.merge_left();
                proof {
                    if game@ != before@ {
                        lemma_changed_board_has_gap(before@, event);
                    }
                }
                game.settle_move(&before)
            },
            GameEvent::SwipeRight => {
                let before = game.board.clone();
                game.board.merge_right();
                proof {
                    if game@ != before@ {
                        lemma_changed_board_has_gap(before@, event);
                    }
                }
                game.settle_move(&before)
            },
            GameEvent::Undo => unreached(),
            GameEvent::SaveGame => unreached(),
            GameEvent::LoadGame => unreached(),
            GameEvent::NewGame => Game::start_new_game(),
        }
    }

    /// Whether `handle_event` takes `event` in this state: whether the event is one
    /// that a game handles and, for a swipe, whether the tiles can move that way.
    pub fn can_handle(&self, event: &GameEvent) -> (accepted: bool)
        requires
            self.wf(),
        ensures
            accepted == (is_handled(*event) && swipe_fits(self@, *event)),
    {
        match event {
            GameEvent::SwipeUp => self.board.merge_up_fits(),
            GameEvent::SwipeDown => self.board.merge_down_fits(),
            GameEvent::SwipeLeft => self.board.merge_left_fits(),
            GameEvent::SwipeRight => self.board.merge_right_fits(),
            GameEvent::Undo => false,
            GameEvent::SaveGame => false,
            GameEvent::LoadGame => false,
            GameEvent::NewGame => true,
        }
    }

    /// A game that has just begun: an empty board of four rows and columns on which one
    /// random tile was placed.
    pub fn start_new_game() -> (result: Result<Game, GameError>)
        ensures
            result matches Ok(game) && game.wf() && game.just_begun() && forall|event: GameEvent|
                #[trigger] swipe_fits(game@, event),
    {
        let mut game = Game {
            board: Board::new(4),
            score: 0,
            is_game_over: false,
            game_over_reason: None,
        };
        assert(is_gap(game.board@, 0, 0));
        game.board.add_random_tile().unwrap();
        proof {
            assert forall|event: GameEvent| #[trigger] swipe_fits(game@, event) by {
                lemma_first_tile_fits(game@, event);
            }
        }
        Ok(game)
    }

    /// The ranks on the board, row by row, for reading.
    pub fn read_board_state(&self) -> (rows: &Vec<Vec<TileType>>)
        ensures
            rows_of(*rows) == self@,
    {
        self.board.get_data_for_display()
    }
}

} // verus!
