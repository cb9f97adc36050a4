use rs2048::board::{Board, TileType};
use rs2048::grid::DataGrid;

fn board_of(rows: Vec<Vec<TileType>>) -> Board {
    Board::from_grid(DataGrid::try_from(rows).unwrap())
}

// single row merge tests
#[test]
fn merge_simple() {
    let input = vec![2 as TileType, 2, 0, 0];
    let expected = vec![3 as TileType, 0, 0, 0];
    let actual = Board::merge_tiles(&input);
    assert_eq!(expected, actual);
}

#[test]
fn merge_with_spaces() {
    let input = vec![2 as TileType, 0, 2, 0];
    let expected = vec![3 as TileType, 0, 0, 0];
    let actual = Board::merge_tiles(&input);
    assert_eq!(expected, actual);
}

#[test]
fn merge_but_cant() {
    let input = vec![2 as TileType, 3, 2, 3];
    let expected = vec![2 as TileType, 3, 2, 3];
    let actual = Board::merge_tiles(&input);
    assert_eq!(expected, actual);
}

#[test]
fn merge_all_same() {
    let input = vec![2 as TileType, 2, 2, 2];
    let expected = vec![3 as TileType, 3, 0, 0];
    let actual = Board::merge_tiles(&input);
    assert_eq!(expected, actual);
}

#[test]
fn dont_merge_twice_at_once() {
    let input = vec![1 as TileType, 1, 2, 0];
    let expected = vec![2 as TileType, 2, 0, 0];
    let actual = Board::merge_tiles(&input);
    assert_eq!(expected, actual);
}

#[test]
fn dont_merge_twice_at_once_reverse() {
    let input = vec![2 as TileType, 1, 1, 0];
    let expected = vec![2 as TileType, 2, 0, 0];
    let actual = Board::merge_tiles(&input);
    assert_eq!(expected, actual);
}

#[test]
fn merge_empty_input() {
    let input = vec![];
    let expected: Vec<TileType> = vec![];
    let actual = Board::merge_tiles(&input);
    assert_eq!(expected, actual);
}

#[test]
fn merge_single_element() {
    let input = vec![2 as TileType];
    let expected = vec![2 as TileType];
    let actual = Board::merge_tiles(&input);
    assert_eq!(expected, actual);
}

#[test]
fn merge_large_input() {
    let input = vec![2 as TileType; 1000];
    let mut expected = vec![3 as TileType; 500];
    expected.extend(vec![0 as TileType; 500]);
    let actual = Board::merge_tiles(&input);
    assert_eq!(expected, actual);
}

// Board merge tests

#[test]
fn merge_up_simple() {
    let input = board_of(vec![
        vec![2, 0, 0, 0 as TileType],
        vec![2, 0, 0, 0 as TileType],
        vec![0, 0, 0, 0 as TileType],
        vec![0, 0, 0, 0 as TileType],
    ]);

    let expected = board_of(vec![
        vec![3, 0, 0, 0 as TileType],
        vec![0, 0, 0, 0 as TileType],
        vec![0, 0, 0, 0 as TileType],
        vec![0, 0, 0, 0 as TileType],
    ]);

    let mut actual = input.clone();
    actual.merge_up();

    assert_eq!(expected, actual);
}

#[test]
fn merge_up_cant_merge() {
    let input = board_of(vec![
        vec![2, 2, 2, 2 as TileType],
        vec![3, 3, 3, 3 as TileType],
        vec![2, 2, 2, 2 as TileType],
        vec![3, 3, 3, 3 as TileType],
    ]);

    let expected = board_of(vec![
        vec![2, 2, 2, 2 as TileType],
        vec![3, 3, 3, 3 as TileType],
        vec![2, 2, 2, 2 as TileType],
        vec![3, 3, 3, 3 as TileType],
    ]);

    let mut actual = input.clone();
    actual.merge_up();

    assert_eq!(expected, actual);
}

#[test]
fn merge_up_full_board() {
    let input = board_of(vec![
        vec![2, 2, 2, 2 as TileType],
        vec![2, 2, 2, 2 as TileType],
        vec![2, 2, 2, 2 as TileType],
        vec![2, 2, 2, 2 as TileType],
    ]);

    let expected = board_of(vec![
        vec![3, 3, 3, 3 as TileType],
        vec![3, 3, 3, 3 as TileType],
        vec![0, 0, 0, 0 as TileType],
        vec![0, 0, 0, 0 as TileType],
    ]);

    let mut actual = input.clone();
    actual.merge_up();

    assert_eq!(expected, actual);
}

#[test]
fn merge_left_full_board() {
    let input = board_of(vec![
        vec![2, 2, 2, 2 as TileType],
        vec![2, 2, 2, 2 as TileType],
        vec![2, 2, 2, 2 as TileType],
        vec![2, 2, 2, 2 as TileType],
    ]);

    let expected = board_of(vec![
        vec![3, 3, 0, 0 as TileType],
        vec![3, 3, 0, 0 as TileType],
        vec![3, 3, 0, 0 as TileType],
        vec![3, 3, 0, 0 as TileType],
    ]);

    let mut actual = input.clone();
    actual.merge_left();

    assert_eq!(expected, actual);
}

#[test]
fn merge_right_full_board() {
    let input = board_of(vec![
        vec![2, 2, 2, 2 as TileType],
        vec![2, 2, 2, 2 as TileType],
        vec![2, 2, 2, 2 as TileType],
        vec![2, 2, 2, 2 as TileType],
    ]);

    let expected = board_of(vec![
        vec![0, 0, 3, 3 as TileType],
        vec![0, 0, 3, 3 as TileType],
        vec![0, 0, 3, 3 as TileType],
        vec![0, 0, 3, 3 as TileType],
    ]);

    let mut actual = input.clone();
    actual.merge_right();

    assert_eq!(expected, actual);
}

#[test]
fn merge_down_full_board() {
    let input = board_of(vec![
        vec![2, 2, 2, 2 as TileType],
        vec![2, 2, 2, 2 as TileType],
        vec![2, 2, 2, 2 as TileType],
        vec![2, 2, 2, 2 as TileType],
    ]);

    let expected = board_of(vec![
        vec![0, 0, 0, 0 as TileType],
        vec![0, 0, 0, 0 as TileType],
        vec![3, 3, 3, 3 as TileType],
        vec![3, 3, 3, 3 as TileType],
    ]);

    let mut actual = input.clone();
    actual.merge_down();

    assert_eq!(expected, actual);
}

#[test]
fn merge_up_large_board() {
    let input = board_of(vec![vec![2 as TileType; 1000]; 1000]);

    let mut expected_board = vec![vec![3 as TileType; 1000]; 500];
    expected_board.extend(vec![vec![0 as TileType; 1000]; 500]);
    let expected = board_of(expected_board);

    let mut actual = input.clone();
    actual.merge_up();

    assert_eq!(expected, actual);
}

// The merge of one line.

#[test]
fn merge_closes_gaps_without_joining() {
    let input = vec![0 as TileType, 1, 0, 2];
    assert_eq!(Board::merge_tiles(&input), vec![1, 2, 0, 0]);
    let only_gaps = vec![0 as TileType, 0, 0];
    assert_eq!(Board::merge_tiles(&only_gaps), vec![0, 0, 0]);
    let gap = vec![0 as TileType];
    assert_eq!(Board::merge_tiles(&gap), vec![0]);
}

#[test]
fn merge_joins_across_a_leading_gap() {
    let input = vec![0 as TileType, 4, 0, 4, 4];
    assert_eq!(Board::merge_tiles(&input), vec![5, 4, 0, 0, 0]);
}

#[test]
fn merge_of_three_equal_tiles_joins_the_front_pair() {
    let input = vec![3 as TileType, 3, 3];
    assert_eq!(Board::merge_tiles(&input), vec![4, 3, 0]);
}

#[test]
fn merge_is_not_blocked_by_gaps_but_by_other_tiles() {
    let blocked = vec![2 as TileType, 1, 2, 0];
    assert_eq!(Board::merge_tiles(&blocked), vec![2, 1, 2, 0]);
    let open = vec![2 as TileType, 0, 0, 2];
    assert_eq!(Board::merge_tiles(&open), vec![3, 0, 0, 0]);
}

#[test]
fn merging_a_settled_line_again_changes_nothing() {
    let input = vec![2 as TileType, 2, 3, 0, 1];
    let once = Board::merge_tiles(&input);
    assert_eq!(once, vec![3, 3, 1, 0, 0]);
    // Here the first pass left two equal neighbours, so a second pass joins them.
    let twice = Board::merge_tiles(&once);
    assert_eq!(twice, vec![4, 1, 0, 0, 0]);
    // Now nothing is left to join: further passes change nothing.
    assert_eq!(Board::merge_tiles(&twice), twice);

    let settles = vec![1 as TileType, 1, 0, 3];
    let once = Board::merge_tiles(&settles);
    assert_eq!(once, vec![2, 3, 0, 0]);
    assert_eq!(Board::merge_tiles(&once), once);
}

#[test]
fn merge_fits_unless_two_highest_tiles_would_join() {
    assert!(Board::merge_fits(&[]));
    assert!(Board::merge_fits(&[2, 2, 0, 0]));
    assert!(Board::merge_fits(&[254, 254]));
    assert!(Board::merge_fits(&[255, 3, 255]));
    assert!(Board::merge_fits(&[255, 0, 0]));
    assert!(!Board::merge_fits(&[255, 255]));
    assert!(!Board::merge_fits(&[0, 255, 0, 255]));
    // The first two join, so the third tile of the highest rank stays alone.
    assert!(Board::merge_fits(&[254, 254, 255]));
    assert!(!Board::merge_fits(&[1, 255, 255]));
    assert_eq!(Board::merge_tiles(&[254, 254, 255]), vec![255, 255, 0]);
}

// The board.

fn rows_of(board: &Board) -> Vec<Vec<TileType>> {
    board.get_data_for_display().clone()
}

#[test]
fn new_board_is_empty_and_square() {
    let board = Board::new(3);
    assert_eq!(rows_of(&board), vec![vec![0; 3]; 3]);
    assert_eq!(board.empty_positions().len(), 9);
}

#[test]
fn boards_are_equal_when_their_cells_are() {
    let a = board_of(vec![vec![1, 0], vec![0, 2]]);
    let b = board_of(vec![vec![1, 0], vec![0, 2]]);
    let c = board_of(vec![vec![1, 0], vec![0, 3]]);
    assert_eq!(a, b);
    assert_ne!(a, c);
    assert_eq!(a.clone(), a);
}

#[test]
fn merges_in_the_four_directions() {
    let start = vec![
        vec![1, 0, 1, 2 as TileType],
        vec![0, 0, 2, 2 as TileType],
        vec![1, 3, 0, 0 as TileType],
        vec![1, 3, 2, 1 as TileType],
    ];

    let mut left = board_of(start.clone());
    left.merge_left();
    assert_eq!(
        rows_of(&left),
        vec![
            vec![2, 2, 0, 0],
            vec![3, 0, 0, 0],
            vec![1, 3, 0, 0],
            vec![1, 3, 2, 1],
        ]
    );

    let mut right = board_of(start.clone());
    right.merge_right();
    assert_eq!(
        rows_of(&right),
        vec![
            vec![0, 0, 2, 2],
            vec![0, 0, 0, 3],
            vec![0, 0, 1, 3],
            vec![1, 3, 2, 1],
        ]
    );

    let mut up = board_of(start.clone());
    up.merge_up();
    assert_eq!(
        rows_of(&up),
        vec![
            vec![2, 4, 1, 3],
            vec![1, 0, 3, 1],
            vec![0, 0, 0, 0],
            vec![0, 0, 0, 0],
        ]
    );

    let mut down = board_of(start);
    down.merge_down();
    assert_eq!(
        rows_of(&down),
        vec![
            vec![0, 0, 0, 0],
            vec![0, 0, 0, 0],
            vec![1, 0, 1, 3],
            vec![2, 4, 3, 1],
        ]
    );
}

#[test]
fn three_equal_tiles_join_at_the_side_swiped_to() {
    let mut right = board_of(vec![vec![3, 3, 3], vec![0, 0, 0], vec![0, 0, 0]]);
    right.merge_right();
    assert_eq!(rows_of(&right)[0], vec![0, 3, 4]);

    let mut down = board_of(vec![vec![3, 0, 0], vec![3, 0, 0], vec![3, 0, 0]]);
    down.merge_down();
    assert_eq!(rows_of(&down), vec![vec![0, 0, 0], vec![3, 0, 0], vec![4, 0, 0]]);
}

#[test]
fn swiping_twice_is_swiping_once_on_a_board_that_settles() {
    let start = vec![
        vec![1, 1, 0, 3 as TileType],
        vec![0, 2, 0, 2 as TileType],
        vec![4, 0, 0, 0 as TileType],
        vec![1, 2, 1, 2 as TileType],
    ];
    let mut once = board_of(start.clone());
    once.merge_left();
    let mut twice = once.clone();
    twice.merge_left();
    assert_eq!(once, twice);

    let mut once = board_of(start);
    once.merge_right();
    let mut twice = once.clone();
    twice.merge_right();
    assert_eq!(once, twice);

    let upright = vec![
        vec![1, 0, 4, 1 as TileType],
        vec![1, 2, 0, 2 as TileType],
        vec![0, 0, 0, 1 as TileType],
        vec![3, 2, 0, 2 as TileType],
    ];
    let mut once = board_of(upright.clone());
    once.merge_up();
    let mut twice = once.clone();
    twice.merge_up();
    assert_eq!(once, twice);

    let mut once = board_of(upright);
    once.merge_down();
    let mut twice = once.clone();
    twice.merge_down();
    assert_eq!(once, twice);
}

#[test]
fn swiping_twice_differs_where_the_first_swipe_leaves_equal_neighbours() {
    let mut once = board_of(vec![vec![1, 1, 2, 0], vec![0; 4], vec![0; 4], vec![0; 4]]);
    once.merge_left();
    assert_eq!(rows_of(&once)[0], vec![2, 2, 0, 0]);
    let mut twice = once.clone();
    twice.merge_left();
    assert_eq!(rows_of(&twice)[0], vec![3, 0, 0, 0]);
    assert_ne!(once, twice);
}

#[test]
fn merge_fits_on_boards() {
    let low = board_of(vec![vec![1, 1], vec![2, 0]]);
    assert!(low.merge_up_fits());
    assert!(low.merge_down_fits());
    assert!(low.merge_left_fits());
    assert!(low.merge_right_fits());

    let sideways = board_of(vec![vec![255, 255], vec![0, 0]]);
    assert!(sideways.merge_up_fits());
    assert!(sideways.merge_down_fits());
    assert!(!sideways.merge_left_fits());
    assert!(!sideways.merge_right_fits());

    let upright = board_of(vec![vec![255, 1], vec![255, 2]]);
    assert!(!upright.merge_up_fits());
    assert!(!upright.merge_down_fits());
    assert!(upright.merge_left_fits());
    assert!(upright.merge_right_fits());

    // Toward the left the pair of rank 254 joins first; toward the right the
    // pair of rank 255 would.
    let lopsided = board_of(vec![
        vec![254, 254, 255],
        vec![0, 0, 0],
        vec![0, 0, 0],
    ]);
    assert!(lopsided.merge_left_fits());
    assert!(lopsided.merge_right_fits());
    let other = board_of(vec![
        vec![255, 255, 255],
        vec![0, 0, 0],
        vec![0, 0, 0],
    ]);
    assert!(!other.merge_left_fits());
    assert!(!other.merge_right_fits());
}

#[test]
fn empty_positions_are_listed_in_reading_order() {
    let board = board_of(vec![vec![1, 0, 2], vec![0, 0, 3], vec![4, 5, 0]]);
    assert_eq!(
        board.empty_positions(),
        vec![(1, 0), (0, 1), (1, 1), (2, 2)]
    );
    let full = board_of(vec![vec![1, 2], vec![3, 4]]);
    assert_eq!(full.empty_positions(), vec![]);
}

#[test]
fn place_item_writes_row_then_column() {
    let mut board = Board::new(3);
    assert_eq!(board.place_item_in_board(0, 2, 5), Ok(()));
    assert_eq!(rows_of(&board), vec![vec![0, 0, 5], vec![0, 0, 0], vec![0, 0, 0]]);
    assert_eq!(
        board.place_item_in_board(3, 0, 5),
        Err(rs2048::grid::MatrixError::IndexNotFound)
    );
    assert_eq!(
        board.place_item_in_board(0, 3, 5),
        Err(rs2048::grid::MatrixError::IndexNotFound)
    );
}

// New tiles.

#[test]
fn drawn_tile_goes_where_it_was_drawn() {
    let mut board = board_of(vec![vec![0, 2, 0], vec![5, 0, 0], vec![0, 0, 7]]);
    // A position is written (column, row).
    board.add_drawn_tile(Some((2, 1)), Some(1)).unwrap();
    assert_eq!(rows_of(&board), vec![vec![0, 2, 0], vec![5, 0, 1], vec![0, 0, 7]]);
    board.add_drawn_tile(Some((0, 2)), Some(2)).unwrap();
    assert_eq!(rows_of(&board), vec![vec![0, 2, 0], vec![5, 0, 1], vec![2, 0, 7]]);
}

#[test]
fn no_drawn_position_means_a_full_board() {
    let mut board = board_of(vec![vec![1, 2], vec![3, 4]]);
    assert!(board.empty_positions().is_empty());
    let result = board.add_drawn_tile(None, None);
    assert!(matches!(
        result,
        Err(rs2048::board::BoardError::AddRandomTileError)
    ));
    assert_eq!(rows_of(&board), vec![vec![1, 2], vec![3, 4]]);
}

#[test]
fn random_tile_lands_on_the_only_empty_cell() {
    for _ in 0..200 {
        let mut board = board_of(vec![vec![3, 4, 5], vec![6, 7, 0], vec![8, 9, 10]]);
        board.add_random_tile().unwrap();
        let rows = rows_of(&board);
        let rank = rows[1][2];
        assert!(rank == 1 || rank == 2);
        assert_eq!(rows, vec![vec![3, 4, 5], vec![6, 7, rank], vec![8, 9, 10]]);
    }
}

#[test]
fn random_tile_fails_on_a_full_board() {
    let mut board = board_of(vec![vec![1, 2], vec![3, 4]]);
    let result = board.add_random_tile();
    assert!(matches!(
        result,
        Err(rs2048::board::BoardError::AddRandomTileError)
    ));
    assert_eq!(rows_of(&board), vec![vec![1, 2], vec![3, 4]]);
}

#[test]
fn random_tile_fills_one_empty_cell_and_keeps_the_rest() {
    for _ in 0..200 {
        let start = vec![vec![0, 2, 0], vec![5, 0, 0], vec![0, 0, 7 as TileType]];
        let mut board = board_of(start.clone());
        board.add_random_tile().unwrap();
        let rows = rows_of(&board);
        let mut changed = 0;
        for r in 0..3 {
            for c in 0..3 {
                if rows[r][c] != start[r][c] {
                    changed += 1;
                    assert_eq!(start[r][c], 0);
                    assert!(rows[r][c] == 1 || rows[r][c] == 2);
                }
            }
        }
        assert_eq!(changed, 1);
    }
}

#[test]
fn random_tiles_reach_every_empty_cell() {
    let mut seen = vec![vec![false; 2]; 2];
    for _ in 0..400 {
        let mut board = Board::new(2);
        board.add_random_tile().unwrap();
        let rows = rows_of(&board);
        for r in 0..2 {
            for c in 0..2 {
                if rows[r][c] != 0 {
                    seen[r][c] = true;
                }
            }
        }
    }
    assert_eq!(seen, vec![vec![true; 2]; 2]);
}

#[test]
fn lower_rank_is_three_times_as_likely() {
    let trials = 8000;
    let mut lower = 0;
    let mut higher = 0;
    for _ in 0..trials {
        let mut board = Board::new(1);
        board.add_random_tile().unwrap();
        match rows_of(&board)[0][0] {
            1 => lower += 1,
            2 => higher += 1,
            other => panic!("a new tile of rank {}", other),
        }
    }
    assert_eq!(lower + higher, trials);
    let share = lower as f64 / trials as f64;
    assert!(share > 0.72 && share < 0.78, "share of the lower rank: {}", share);
}

#[test]
fn filling_a_board_takes_one_tile_per_cell() {
    let mut board = Board::new(3);
    for placed in 0..9 {
        assert_eq!(board.empty_positions().len(), 9 - placed);
        board.add_random_tile().unwrap();
    }
    assert!(board.empty_positions().is_empty());
    assert!(board.add_random_tile().is_err());
}
