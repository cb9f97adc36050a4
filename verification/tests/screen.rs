use rs2048::input::MainMenuOption;
use rs2048::screen::{
    board_corner, board_line, border_glyph, cell_width, controls_line, create_constant_row,
    decimal_string, get_padded_string, menu_box, menu_label, menu_line, menu_paint, repeated,
    tile_background, tile_foreground, tile_label, tile_value, Paint, ScreenBox, CONTROLS_WIDTH,
    HIGHEST_SHOWN_RANK, MENU_BOX_HEIGHT, MENU_BOX_WIDTH,
};

#[test]
fn repeated_repeats() {
    assert_eq!(repeated('x', 0), "");
    assert_eq!(repeated('x', 3), "xxx");
    assert_eq!(repeated('─', 2), "──");
}

#[test]
fn padding_centres_the_text() {
    assert_eq!(get_padded_string("New Game", 14), "   New Game   ");
    assert_eq!(get_padded_string("Load", 14), "     Load     ");
    assert_eq!(get_padded_string("Quit", 14), "     Quit     ");
    // Of an odd number of blanks the one more stands on the right.
    assert_eq!(get_padded_string("ab", 5), " ab  ");
    assert_eq!(get_padded_string("", 3), "   ");
}

#[test]
fn padding_leaves_a_long_text_alone() {
    assert_eq!(get_padded_string("abcdef", 6), "abcdef");
    assert_eq!(get_padded_string("abcdef", 3), "abcdef");
    assert_eq!(get_padded_string("abcdef", 0), "abcdef");
}

#[test]
fn padding_counts_bytes() {
    // 'é' takes two bytes, so "é" counts as two of the four places.
    assert_eq!(get_padded_string("é", 4), " é ");
}

#[test]
fn constant_rows_frame_the_cells() {
    assert_eq!(
        create_constant_row(4, 3, '┌', '┬', '┐', '─'),
        "┌───┬───┬───┬───┐\n"
    );
    assert_eq!(
        create_constant_row(2, 2, '│', '│', '│', ' '),
        "│  │  │\n"
    );
    assert_eq!(create_constant_row(1, 4, '└', '┴', '┘', '─'), "└────┘\n");
    assert_eq!(create_constant_row(0, 4, '├', '┼', '┤', '─'), "├┤\n");
    assert_eq!(create_constant_row(3, 0, '├', '┼', '┤', '─'), "├┼┼┤\n");
}

#[test]
fn decimal_strings_are_those_of_the_standard_library() {
    for n in [0u32, 1, 9, 10, 11, 99, 100, 101, 2048, 65536, 4294967295] {
        assert_eq!(decimal_string(n), n.to_string());
    }
}

#[test]
fn tile_values_are_powers_of_two() {
    assert_eq!(tile_value(0), 1);
    assert_eq!(tile_value(1), 2);
    assert_eq!(tile_value(2), 4);
    assert_eq!(tile_value(11), 2048);
    assert_eq!(tile_value(HIGHEST_SHOWN_RANK), 2147483648);
    for rank in 0..=HIGHEST_SHOWN_RANK {
        assert_eq!(tile_value(rank), 2u32.pow(rank as u32));
    }
}

#[test]
fn tile_labels_are_centred_values() {
    assert_eq!(tile_label(0, 3), "   ");
    assert_eq!(tile_label(1, 3), " 2 ");
    assert_eq!(tile_label(4, 4), " 16 ");
    assert_eq!(tile_label(4, 5), " 16  ");
    assert_eq!(tile_label(11, 6), " 2048 ");
    assert_eq!(tile_label(11, 4), "2048");
    assert_eq!(tile_label(0, 1), " ");
}

#[test]
fn cells_are_two_wider_than_the_widest_value() {
    assert_eq!(cell_width(&vec![vec![0, 0], vec![0, 0]]), 3);
    assert_eq!(cell_width(&vec![vec![1, 2, 3]]), 3);
    assert_eq!(cell_width(&vec![vec![1, 4], vec![0, 3]]), 4);
    assert_eq!(cell_width(&vec![vec![0, 0], vec![11, 0]]), 6);
    assert_eq!(cell_width(&vec![vec![HIGHEST_SHOWN_RANK]]), 12);
    assert_eq!(cell_width(&vec![]), 2);
    assert_eq!(cell_width(&vec![vec![], vec![]]), 2);
}

#[test]
fn tiles_change_colour_every_three_ranks() {
    let backgrounds = [
        (0, Paint::Black),
        (1, Paint::White),
        (2, Paint::White),
        (3, Paint::Yellow),
        (5, Paint::Yellow),
        (6, Paint::Red),
        (8, Paint::Red),
        (9, Paint::Magenta),
        (11, Paint::Magenta),
        (12, Paint::Cyan),
        (14, Paint::Cyan),
        (15, Paint::Green),
        (16, Paint::Green),
        (17, Paint::Green),
        (255, Paint::Green),
    ];
    for (rank, paint) in backgrounds {
        assert_eq!(tile_background(rank), paint);
    }
    for rank in 0..=255u8 {
        let expected = if rank == 0 || (6..=8).contains(&rank) {
            Paint::White
        } else {
            Paint::Black
        };
        assert_eq!(tile_foreground(rank), expected);
    }
}

#[test]
fn menu_box_stands_in_the_middle() {
    assert_eq!((MENU_BOX_WIDTH, MENU_BOX_HEIGHT), (16, 5));
    let frame = menu_box(80, 24);
    assert_eq!(
        frame,
        ScreenBox {
            left_x: 32,
            right_x: 47,
            top_y: 9,
            bottom_y: 13
        }
    );
    let smallest = menu_box(16, 5);
    assert_eq!(
        smallest,
        ScreenBox {
            left_x: 0,
            right_x: 15,
            top_y: 0,
            bottom_y: 4
        }
    );
    let odd = menu_box(81, 25);
    assert_eq!(
        odd,
        ScreenBox {
            left_x: 32,
            right_x: 47,
            top_y: 10,
            bottom_y: 14
        }
    );
}

#[test]
fn border_has_corners_and_edges() {
    let frame = menu_box(80, 24);
    assert_eq!(border_glyph(&frame, 32, 9), Some('┌'));
    assert_eq!(border_glyph(&frame, 47, 9), Some('┐'));
    assert_eq!(border_glyph(&frame, 32, 13), Some('└'));
    assert_eq!(border_glyph(&frame, 47, 13), Some('┘'));
    assert_eq!(border_glyph(&frame, 40, 9), Some('─'));
    assert_eq!(border_glyph(&frame, 40, 13), Some('─'));
    assert_eq!(border_glyph(&frame, 32, 11), Some('│'));
    assert_eq!(border_glyph(&frame, 47, 11), Some('│'));
    assert_eq!(border_glyph(&frame, 40, 11), None);
    assert_eq!(border_glyph(&frame, 31, 9), None);
    assert_eq!(border_glyph(&frame, 48, 11), None);
    assert_eq!(border_glyph(&frame, 40, 8), None);
    assert_eq!(border_glyph(&frame, 40, 14), None);
    let mut drawn = 0;
    for y in 0..24 {
        for x in 0..80 {
            if border_glyph(&frame, x, y).is_some() {
                drawn += 1;
            }
        }
    }
    assert_eq!(drawn, 2 * 16 + 2 * 3);
}

#[test]
fn menu_entries_have_their_lines_labels_and_colours() {
    let frame = menu_box(80, 24);
    assert_eq!(menu_line(&frame, MainMenuOption::NewGame), 10);
    assert_eq!(menu_line(&frame, MainMenuOption::LoadGame), 11);
    assert_eq!(menu_line(&frame, MainMenuOption::Quit), 12);
    assert_eq!(menu_label(MainMenuOption::NewGame), "New Game");
    assert_eq!(menu_label(MainMenuOption::LoadGame), "Load");
    assert_eq!(menu_label(MainMenuOption::Quit), "Quit");
    assert_eq!(
        menu_paint(MainMenuOption::Quit, MainMenuOption::Quit),
        Paint::Yellow
    );
    assert_eq!(
        menu_paint(MainMenuOption::Quit, MainMenuOption::NewGame),
        Paint::White
    );
}

#[test]
fn board_stands_in_the_middle() {
    // Four cells of width 3: 4 * 4 + 1 = 17 columns and 16 lines below the corner.
    assert_eq!(board_corner(80, 24, 3, 4, 4), (31, 4));
    assert_eq!(board_corner(17, 16, 3, 4, 4), (0, 0));
    assert_eq!(board_corner(18, 17, 3, 4, 4), (0, 0));
    assert_eq!(board_corner(19, 18, 3, 4, 4), (1, 1));
    assert_eq!(board_line(4, 0, 1), 5);
    assert_eq!(board_line(4, 0, 4), 8);
    assert_eq!(board_line(4, 3, 2), 18);
    assert_eq!(board_line(4, 3, 4), 20);
}

#[test]
fn controls_fill_the_bottom_line() {
    assert_eq!(CONTROLS_WIDTH, 39);
    assert_eq!(
        controls_line(39),
        " Arrow Keys: Merge  R: Restart  Q: Quit"
    );
    assert_eq!(
        controls_line(42),
        " Arrow Keys: Merge  R: Restart  Q: Quit   "
    );
    assert_eq!(controls_line(80).chars().count(), 80);
}

fn strings(rows: Vec<Vec<&str>>) -> Vec<Vec<String>> {
    rows.into_iter()
        .map(|row| row.into_iter().map(|text| text.to_string()).collect())
        .collect()
}

#[test]
fn table_of_one_cell() {
    let text = rs2048::screen::table_text(&strings(vec![vec!["7"]]));
    assert_eq!(text, "┌───┐\n│   │\n│ 7 │\n│   │\n└───┘\n");
}

#[test]
fn table_of_numbers() {
    let text = rs2048::screen::table_text(&strings(vec![vec!["1", "20"], vec!["300", "4"]]));
    let expected = "\
┌─────┬─────┐
│     │     │
│  1  │ 20  │
│     │     │
├─────┼─────┤
│     │     │
│ 300 │  4  │
│     │     │
└─────┴─────┘
";
    assert_eq!(text, expected);
}

#[test]
fn table_of_a_single_row_has_no_line_between_rows() {
    let text = rs2048::screen::table_text(&strings(vec![vec!["a", "b", "c"]]));
    assert_eq!(
        text,
        "┌───┬───┬───┐\n│   │   │   │\n│ a │ b │ c │\n│   │   │   │\n└───┴───┴───┘\n"
    );
}

#[test]
fn table_with_an_empty_text() {
    let text = rs2048::screen::table_text(&strings(vec![vec!["", "ab"]]));
    assert_eq!(
        text,
        "┌────┬────┐\n│    │    │\n│    │ ab │\n│    │    │\n└────┴────┘\n"
    );
}
