//! What is drawn where: the text of the frames and labels, the colours of the tiles and
//! the places of the menu and the board on a terminal of a given size.
//!
//! Nothing here writes to a terminal. The caller prints the strings, at the places and
//! in the colours that these functions give.

use vstd::prelude::*;
use vstd::arithmetic::power2::lemma2_to64;
use vstd::arithmetic::power2::lemma_pow2_strictly_increases;
use vstd::arithmetic::power2::lemma_pow2_unfold;
use vstd::arithmetic::power2::pow2;
use vstd::string::StringExecFns;
use vstd::utf8::encode_utf8;
use vstd::utf8::is_ascii_chars;
use vstd::utf8::is_ascii_chars_encode_utf8;
use crate::board::TileType;
use crate::grid::rows_of;
use crate::input::MainMenuOption;

verus! {

/// `String::push` of the standard library appends the given character to the end of
/// the string.
pub assume_specification[ String::push ](text: &mut String, ch: char)
    ensures
        final(text)@ == old(text)@.push(ch),
;

/// `count` times the character `ch`.
pub open spec fn run_of(ch: char, count: nat) -> Seq<char> {
    Seq::new(count, |i: int| ch)
}

/// A string of `count` times the character `ch`.
pub fn repeated(ch: char, count: usize) -> (text: String)
    ensures
        text@ == run_of(ch, count as nat),
{
    let mut text = String::new();
    let mut i: usize = 0;
    while i < count
        invariant
            i <= count,
            text@ == run_of(ch, i as nat),
        decreases count - i,
    {
        text.push(ch);
        i += 1;
        assert(text@ =~= run_of(ch, i as nat));
    }
    text
}

/// The number of bytes that `text` takes as a string, which is how the widths of
/// texts are measured here.
pub open spec fn byte_length(text: Seq<char>) -> nat {
    encode_utf8(text).len()
}

/// `text` between blanks so that it fills `width` places, as near the middle as may
/// be: of an odd number of blanks the one more stands on the right.
pub open spec fn centred(text: Seq<char>, width: nat) -> Seq<char>
    recommends
        byte_length(text) <= width,
{
    let left = ((width - byte_length(text)) / 2) as nat;
    let right = (width - byte_length(text) - left) as nat;
    run_of(' ', left) + text + run_of(' ', right)
}

/// `text` centred in `width` places; a text that fills the places or more stays as it
/// is.
pub open spec fn padded(text: Seq<char>, width: nat) -> Seq<char> {
    if byte_length(text) >= width {
        text
    } else {
        centred(text, width)
    }
}

/// `text` centred in `width` places by blanks on both sides. A text of `width` bytes or
/// more is returned as it is.
pub fn get_padded_string(text: &str, width: usize) -> (result: String)
    ensures
        result@ == padded(text@, width as nat),
{
    let used = text.as_bytes().len();
    if used >= width {
        return text.to_string();
    }
    let num_spaces_on_left = (width - used) / 2;
    let num_spaces_on_right = width - (num_spaces_on_left + used);
    let mut result = repeated(' ', num_spaces_on_left);
    result.append(text);
    result.append(repeated(' ', num_spaces_on_right).as_str());
    assert(result@ =~= centred(text@, width as nat));
    result
}

/// `count` copies of `cell` with `joint` between each two of them.
pub open spec fn joined(count: nat, cell: Seq<char>, joint: char) -> Seq<char>
    decreases count,
{
    if count == 0 {
        Seq::empty()
    } else if count == 1 {
        cell
    } else {
        joined((count - 1) as nat, cell, joint).push(joint) + cell
    }
}

/// A line of a frame: `opening`, then `cells` stretches of `cell_width` times `filler`
/// with `joining` between them, then `closing` and the end of the line.
pub open spec fn constant_row(
    cells: nat,
    cell_width: nat,
    opening: char,
    joining: char,
    closing: char,
    filler: char,
) -> Seq<char> {
    seq![opening] + joined(cells, run_of(filler, cell_width), joining) + seq![closing, '\n']
}

/// One line of a frame around `number_of_cells` cells, each `cell_width` wide.
pub fn create_constant_row(
    number_of_cells: usize,
    cell_width: usize,
    opening_char: char,
    joining_char: char,
    closing_char: char,
    filler_char: char,
) -> (row: String)
    ensures
        row@ == constant_row(
            number_of_cells as nat,
            cell_width as nat,
            opening_char,
            joining_char,
            closing_char,
            filler_char,
        ),
{
    let cell = repeated(filler_char, cell_width);
    let mut row = String::new();
    row.push(opening_char);
    let mut i: usize = 0;
    while i < number_of_cells
        invariant
            i <= number_of_cells,
            cell@ == run_of(filler_char, cell_width as nat),
            row@ == seq![opening_char] + joined(i as nat, cell@, joining_char),
        decreases number_of_cells - i,
    {
        if i > 0 {
            row.push(joining_char);
        }
        row.append(cell.as_str());
        i += 1;
        assert(row@ =~= seq![opening_char] + joined(i as nat, cell@, joining_char));
    }
    row.push(closing_char);
    row.push('\n');
    assert(row@ =~= constant_row(
        number_of_cells as nat,
        cell_width as nat,
        opening_char,
        joining_char,
        closing_char,
        filler_char,
    ));
    row
}

/// The character for the digit `d`.
pub open spec fn digit_char(d: nat) -> char
    recommends
        d < 10,
{
    if d == 0 {
        '0'
    } else if d == 1 {
        '1'
    } else if d == 2 {
        '2'
    } else if d == 3 {
        '3'
    } else if d == 4 {
        '4'
    } else if d == 5 {
        '5'
    } else if d == 6 {
        '6'
    } else if d == 7 {
        '7'
    } else if d == 8 {
        '8'
    } else {
        '9'
    }
}

/// `n` written in decimal digits, without leading zeros.
pub open spec fn decimal(n: nat) -> Seq<char>
    decreases n,
{
    if n < 10 {
        seq![digit_char(n)]
    } else {
        decimal(n / 10).push(digit_char(n % 10))
    }
}

/// The character for the digit `d`.
fn digit(d: u32) -> (c: char)
    requires
        d < 10,
    ensures
        c == digit_char(d as nat),
{
    if d == 0 {
        '0'
    } else if d == 1 {
        '1'
    } else if d == 2 {
        '2'
    } else if d == 3 {
        '3'
    } else if d == 4 {
        '4'
    } else if d == 5 {
        '5'
    } else if d == 6 {
        '6'
    } else if d == 7 {
        '7'
    } else if d == 8 {
        '8'
    } else {
        '9'
    }
}

/// `n` written in decimal digits.
pub fn decimal_string(n: u32) -> (text: String)
    ensures
        text@ == decimal(n as nat),
{
    let mut rest = n;
    let mut low: Vec<char> = Vec::new();
    while rest >= 10
        invariant
            decimal(n as nat) == decimal(rest as nat) + low@.reverse(),
        decreases rest,
    {
        let ghost earlier = low@;
        low.push(digit(rest % 10));
        assert(decimal((rest / 10) as nat) + low@.reverse() =~= decimal((rest / 10) as nat).push(
            digit_char((rest % 10) as nat),
        ) + earlier.reverse());
        rest = rest / 10;
    }
    let mut text = String::new();
    text.push(digit(rest));
    let mut i: usize = low.len();
    while i > 0
        invariant
            i <= low@.len(),
            text@ == seq![digit_char(rest as nat)] + low@.reverse().take(low@.len() - i),
        decreases i,
    {
        i -= 1;
        text.push(low[i]);
        assert(text@ =~= seq![digit_char(rest as nat)] + low@.reverse().take(low@.len() - i));
    }
    assert(low@.reverse().take(low@.len() as int) =~= low@.reverse());
    text
}

/// The highest rank whose value `2^rank` fits the 32 bits in which it is computed.
pub const HIGHEST_SHOWN_RANK: TileType = 31;

/// The value that a tile of `rank` stands for: `2^rank`.
pub fn tile_value(rank: TileType) -> (value: u32)
    requires
        rank <= HIGHEST_SHOWN_RANK,
    ensures
        value == pow2(rank as nat),
{
    let mut value: u32 = 1;
    let mut i: TileType = 0;
    proof {
        lemma2_to64();
    }
    while i < rank
        invariant
            i <= rank <= HIGHEST_SHOWN_RANK,
            value == pow2(i as nat),
        decreases rank - i,
    {
        proof {
            lemma_pow2_unfold((i + 1) as nat);
            lemma2_to64();
            if i + 1 < 31 {
                lemma_pow2_strictly_increases((i + 1) as nat, 31);
            }
        }
        value = value * 2;
        i += 1;
    }
    value
}

/// What a cell shows for `rank`: a blank where it is empty, else the value `2^rank`
/// in decimal digits.
pub open spec fn label_of(rank: TileType) -> Seq<char> {
    if rank == 0 {
        seq![' ']
    } else {
        decimal(pow2(rank as nat))
    }
}

/// The text of a cell `cell_width` wide that holds a tile of `rank`: its label, centred.
pub fn tile_label(rank: TileType, cell_width: usize) -> (text: String)
    requires
        rank <= HIGHEST_SHOWN_RANK,
        byte_length(label_of(rank)) <= cell_width,
    ensures
        text@ == centred(label_of(rank), cell_width as nat),
{
    let number_as_string = if rank == 0 {
        " ".to_string()
    } else {
        decimal_string(tile_value(rank))
    };
    proof {
        reveal_strlit(" ");
        assert(number_as_string@ =~= label_of(rank));
    }
    let used = number_as_string.as_str().as_bytes().len();
    let spaces_before = (cell_width - used) / 2;
    let spaces_after = (cell_width - used) - spaces_before;
    let mut text = repeated(' ', spaces_before);
    text.append(number_as_string.as_str());
    text.append(repeated(' ', spaces_after).as_str());
    assert(text@ =~= centred(label_of(rank), cell_width as nat));
    text
}

/// The number of places that the value `2^rank` takes.
pub open spec fn value_digits(rank: TileType) -> nat {
    byte_length(decimal(pow2(rank as nat)))
}

/// `widest` is the greatest number of digits that the value of a cell of `cells`
/// takes, and 0 where `cells` has no cell.
pub open spec fn is_widest_value(cells: Seq<Seq<TileType>>, widest: nat) -> bool {
    &&& forall|r: int, c: int|
        0 <= r < cells.len() && 0 <= c < cells[r].len() ==> value_digits(#[trigger] cells[r][c])
            <= widest
    &&& widest == 0 || exists|r: int, c: int|
        0 <= r < cells.len() && 0 <= c < cells[r].len() && value_digits(#[trigger] cells[r][c])
            == widest
}

/// Every rank in `cells` is one whose value can be shown.
pub open spec fn ranks_shown(cells: Seq<Seq<TileType>>) -> bool {
    forall|r: int, c: int|
        0 <= r < cells.len() && 0 <= c < cells[r].len() ==> #[trigger] cells[r][c]
            <= HIGHEST_SHOWN_RANK
}

/// The width of the cells in which `rows` is drawn: the widest value and one blank on
/// each side of it.
pub fn cell_width(rows: &Vec<Vec<TileType>>) -> (width: usize)
    requires
        ranks_shown(rows_of(*rows)),
    ensures
        width >= 2,
        is_widest_value(rows_of(*rows), (width - 2) as nat),
{
    let ghost cells = rows_of(*rows);
    let mut max_item_length: usize = 0;
    let mut r: usize = 0;
    while r < rows.len()
        invariant
            cells == rows_of(*rows),
            ranks_shown(cells),
            r <= rows@.len(),
            max_item_length <= 10,
            forall|i: int, c: int|
                0 <= i < r && 0 <= c < cells[i].len() ==> value_digits(#[trigger] cells[i][c])
                    <= max_item_length,
            max_item_length == 0 || exists|i: int, c: int|
                0 <= i < cells.len() && 0 <= c < cells[i].len() && value_digits(
                    #[trigger] cells[i][c],
                ) == max_item_length,
        decreases rows@.len() - r,
    {
        let row = &rows[r];
        assert(row@ == cells[r as int]);
        let mut c: usize = 0;
        while c < row.len()
            invariant
                cells == rows_of(*rows),
                ranks_shown(cells),
                r < rows@.len(),
                row@ == cells[r as int],
                c <= row@.len(),
                max_item_length <= 10,
                forall|i: int, k: int|
                    0 <= i < r && 0 <= k < cells[i].len() ==> value_digits(#[trigger] cells[i][k])
                        <= max_item_length,
                forall|k: int|
                    0 <= k < c ==> value_digits(#[trigger] cells[r as int][k]) <= max_item_length,
                max_item_length == 0 || exists|i: int, k: int|
                    0 <= i < cells.len() && 0 <= k < cells[i].len() && value_digits(
                        #[trigger] cells[i][k],
                    ) == max_item_length,
            decreases row@.len() - c,
        {
            assert(cells[r as int][c as int] <= HIGHEST_SHOWN_RANK);
            let digits = decimal_string(tile_value(row[c])).as_str().as_bytes().len();
            proof {
                lemma_decimal_length(pow2(row[c as int] as nat));
                lemma2_to64();
                if row[c as int] < 31 {
                    lemma_pow2_strictly_increases(row[c as int] as nat, 31);
                }
            }
            if digits > max_item_length {
                max_item_length = digits;
            }
            c += 1;
        }
        r += 1;
    }
    max_item_length + 2
}

/// Digits are characters of the ASCII set.
pub proof fn lemma_decimal_is_ascii(n: nat)
    ensures
        is_ascii_chars(decimal(n)),
    decreases n,
{
    if n >= 10 {
        lemma_decimal_is_ascii(n / 10);
    }
}

/// Digits take one byte each.
pub proof fn lemma_decimal_bytes(n: nat)
    ensures
        byte_length(decimal(n)) == decimal(n).len(),
{
    lemma_decimal_is_ascii(n);
    is_ascii_chars_encode_utf8(decimal(n));
}

/// A number below `2^32` takes at most ten places, and every number takes one.
pub proof fn lemma_decimal_length(n: nat)
    ensures
        byte_length(decimal(n)) >= 1,
        n < 0x1_0000_0000 ==> byte_length(decimal(n)) <= 10,
{
    reveal_with_fuel(decimal, 11);
    lemma_decimal_bytes(n);
}

/// The colours in which the game draws.
#[derive(Debug, Clone, Copy, PartialEq, Eq)]
pub enum Paint {
    Black,
    White,
    Yellow,
    Red,
    Magenta,
    Cyan,
    Green,
}

/// The colour behind a tile of `rank`: black behind an empty cell, white behind the two
/// lowest ranks, then one colour for every three ranks, and green from rank 15 on.
pub open spec fn background_of(rank: TileType) -> Paint {
    if rank == 0 {
        Paint::Black
    } else if rank <= 2 {
        Paint::White
    } else if rank <= 5 {
        Paint::Yellow
    } else if rank <= 8 {
        Paint::Red
    } else if rank <= 11 {
        Paint::Magenta
    } else if rank <= 14 {
        Paint::Cyan
    } else {
        Paint::Green
    }
}

/// The colour of the text on a tile of `rank`: white on black and on red, black on
/// every other background.
pub open spec fn foreground_of(rank: TileType) -> Paint {
    if background_of(rank) == Paint::Black || background_of(rank) == Paint::Red {
        Paint::White
    } else {
        Paint::Black
    }
}

/// The colour behind a tile of `rank`.
pub fn tile_background(rank: TileType) -> (paint: Paint)
    ensures
        paint == background_of(rank),
{
    match rank {
        0 => Paint::Black,
        1 => Paint::White,
        2 => Paint::White,
        3 => Paint::Yellow,
        4 => Paint::Yellow,
        5 => Paint::Yellow,
        6 => Paint::Red,
        7 => Paint::Red,
        8 => Paint::Red,
        9 => Paint::Magenta,
        10 => Paint::Magenta,
        11 => Paint::Magenta,
        12 => Paint::Cyan,
        13 => Paint::Cyan,
        14 => Paint::Cyan,
        15 => Paint::Green,
        16 => Paint::Green,
        _ => Paint::Green,
    }
}

/// The colour of the text on a tile of `rank`.
pub fn tile_foreground(rank: TileType) -> (paint: Paint)
    ensures
        paint == foreground_of(rank),
{
    match rank {
        0 => Paint::White,
        1 => Paint::Black,
        2 => Paint::Black,
        3 => Paint::Black,
        4 => Paint::Black,
        5 => Paint::Black,
        6 => Paint::White,
        7 => Paint::White,
        8 => Paint::White,
        9 => Paint::Black,
        10 => Paint::Black,
        11 => Paint::Black,
        12 => Paint::Black,
        13 => Paint::Black,
        14 => Paint::Black,
        15 => Paint::Black,
        16 => Paint::Black,
        _ => Paint::Black,
    }
}

/// The width of the box around the main menu.
pub const MENU_BOX_WIDTH: u16 = 16;

/// The height of the box around the main menu.
pub const MENU_BOX_HEIGHT: u16 = 5;

/// The outermost columns and lines of a box on the screen, all of them part of it.
#[derive(Debug, Clone, Copy, PartialEq, Eq)]
pub struct ScreenBox {
    pub left_x: u16,
    pub right_x: u16,
    pub top_y: u16,
    pub bottom_y: u16,
}

/// A terminal of `columns` by `lines` holds the menu box, and its middle can be
/// computed in 16 bits.
pub open spec fn holds_menu(columns: u16, lines: u16) -> bool {
    &&& MENU_BOX_WIDTH <= columns <= u16::MAX - MENU_BOX_WIDTH
    &&& MENU_BOX_HEIGHT <= lines <= u16::MAX - MENU_BOX_HEIGHT
}

/// The box of the main menu, in the middle of a terminal of `columns` by `lines`.
pub open spec fn menu_box_of(columns: u16, lines: u16) -> ScreenBox {
    ScreenBox {
        left_x: ((columns - MENU_BOX_WIDTH) / 2) as u16,
        right_x: ((columns + MENU_BOX_WIDTH) / 2 - 1) as u16,
        top_y: ((lines - MENU_BOX_HEIGHT) / 2) as u16,
        bottom_y: ((lines + MENU_BOX_HEIGHT) / 2 - 1) as u16,
    }
}

/// The box of the main menu, in the middle of a terminal of `columns` by `lines`.
pub fn menu_box(columns: u16, lines: u16) -> (frame: ScreenBox)
    requires
        holds_menu(columns, lines),
    ensures
        frame == menu_box_of(columns, lines),
        frame.right_x - frame.left_x == MENU_BOX_WIDTH - 1,
        frame.bottom_y - frame.top_y == MENU_BOX_HEIGHT - 1,
{
    ScreenBox {
        left_x: (columns - MENU_BOX_WIDTH) / 2,
        right_x: (columns + MENU_BOX_WIDTH) / 2 - 1,
        top_y: (lines - MENU_BOX_HEIGHT) / 2,
        bottom_y: (lines + MENU_BOX_HEIGHT) / 2 - 1,
    }
}

/// What is drawn at column `x`, line `y` for the border of `frame`: a corner, an edge,
/// or nothing where the place is inside or outside the box.
pub open spec fn border_glyph_of(frame: ScreenBox, x: u16, y: u16) -> Option<char> {
    let in_reach = frame.left_x <= x <= frame.right_x && frame.top_y <= y <= frame.bottom_y;
    let on_side = x == frame.left_x || x == frame.right_x;
    let on_end = y == frame.top_y || y == frame.bottom_y;
    if !in_reach || !(on_side || on_end) {
        None
    } else if x == frame.left_x && y == frame.top_y {
        Some('┌')
    } else if x == frame.right_x && y == frame.top_y {
        Some('┐')
    } else if x == frame.left_x && y == frame.bottom_y {
        Some('└')
    } else if x == frame.right_x && y == frame.bottom_y {
        Some('┘')
    } else if on_side {
        Some('│')
    } else {
        Some('─')
    }
}

/// What is drawn at column `x`, line `y` for the border of `frame`.
pub fn border_glyph(frame: &ScreenBox, x: u16, y: u16) -> (glyph: Option<char>)
    ensures
        glyph == border_glyph_of(*frame, x, y),
{
    if x < frame.left_x || x > frame.right_x || y < frame.top_y || y > frame.bottom_y {
        return None;
    }
    if (y == frame.top_y || y == frame.bottom_y) || (x == frame.left_x || x == frame.right_x) {
        let printed_char = if x == frame.left_x && y == frame.top_y {
            '┌'
        } else if x == frame.right_x && y == frame.top_y {
            '┐'
        } else if x == frame.left_x && y == frame.bottom_y {
            '└'
        } else if x == frame.right_x && y == frame.bottom_y {
            '┘'
        } else if x == frame.left_x || x == frame.right_x {
            '│'
        } else {
            '─'
        };
        Some(printed_char)
    } else {
        None
    }
}

/// The text of a menu entry.
pub open spec fn menu_label_of(option: MainMenuOption) -> Seq<char> {
    match option {
        MainMenuOption::NewGame => "New Game"@,
        MainMenuOption::LoadGame => "Load"@,
        MainMenuOption::Quit => "Quit"@,
    }
}

/// The text of a menu entry.
pub fn menu_label(option: MainMenuOption) -> (label: &'static str)
    ensures
        label@ == menu_label_of(option),
{
    match option {
        MainMenuOption::NewGame => "New Game",
        MainMenuOption::LoadGame => "Load",
        MainMenuOption::Quit => "Quit",
    }
}

/// The line of the menu box on which `option` stands: the entries follow the upper
/// border one by one.
pub fn menu_line(frame: &ScreenBox, option: MainMenuOption) -> (y: u16)
    requires
        frame.top_y <= u16::MAX - 3,
    ensures
        y == frame.top_y + match option {
            MainMenuOption::NewGame => 1int,
            MainMenuOption::LoadGame => 2int,
            MainMenuOption::Quit => 3int,
        },
{
    match option {
        MainMenuOption::NewGame => frame.top_y + 1,
        MainMenuOption::LoadGame => frame.top_y + 2,
        MainMenuOption::Quit => frame.top_y + 3,
    }
}

/// The colour of a menu entry: yellow for the selected one, white for the others.
pub fn menu_paint(option: MainMenuOption, selected: MainMenuOption) -> (paint: Paint)
    ensures
        paint == if option == selected {
            Paint::Yellow
        } else {
            Paint::White
        },
{
    if option == selected {
        Paint::Yellow
    } else {
        Paint::White
    }
}

/// A board of `grid_width` by `grid_height` cells, each `cell_width` wide, fits a
/// terminal of `columns` by `lines`.
pub open spec fn holds_board(
    columns: u16,
    lines: u16,
    cell_width: nat,
    grid_width: nat,
    grid_height: nat,
) -> bool {
    &&& board_width_of(cell_width, grid_width) <= columns
    &&& board_height_of(grid_height) <= lines
}

/// The columns that a drawn board takes: a border, then each cell and its border.
pub open spec fn board_width_of(cell_width: nat, grid_width: nat) -> nat {
    (cell_width + 1) * grid_width + 1
}

/// The lines that a drawn board takes below its upper border: three for each row of
/// cells and one for the border under it.
pub open spec fn board_height_of(grid_height: nat) -> nat {
    grid_height * 4
}

/// The column and the line of the upper left corner of the board, which stands in the
/// middle of a terminal of `columns` by `lines`.
pub fn board_corner(
    columns: u16,
    lines: u16,
    cell_width: usize,
    grid_width: usize,
    grid_height: usize,
) -> (corner: (u16, u16))
    requires
        cell_width < usize::MAX,
        holds_board(columns, lines, cell_width as nat, grid_width as nat, grid_height as nat),
    ensures
        corner.0 == (columns - board_width_of(cell_width as nat, grid_width as nat)) / 2,
        corner.1 == (lines - board_height_of(grid_height as nat)) / 2,
{
    assert((cell_width + 1) * grid_width <= columns) by (nonlinear_arith)
        requires
            (cell_width + 1) * grid_width + 1 <= columns,
    ;
    let board_height = grid_height * 4;
    let board_width = (cell_width + 1) * grid_width + 1;
    let board_left_side_x_pos = (columns - board_width as u16) / 2;
    let board_top_side_y_pos = (lines - board_height as u16) / 2;
    (board_left_side_x_pos, board_top_side_y_pos)
}

/// The line on which part `part` of row `row` of the board is drawn, below a board
/// corner at line `top_y`: parts 1 to 3 are the three lines of the cells, part 4 the
/// border under them.
pub fn board_line(top_y: u16, row: usize, part: u16) -> (y: u16)
    requires
        1 <= part <= 4,
        top_y + 4 * row + part <= u16::MAX,
    ensures
        y == top_y + 4 * row + part,
{
    top_y + (4 * row as u16) + part
}

/// What the keys do, as shown on the bottom line of the screen.
pub open spec fn controls_text() -> Seq<char> {
    " Arrow Keys: Merge  R: Restart  Q: Quit"@
}

/// The number of characters of `controls_text`.
pub const CONTROLS_WIDTH: u16 = 39;

/// The bottom line of a terminal `columns` wide: what the keys do, then blanks to the
/// end of the line.
pub fn controls_line(columns: u16) -> (line: String)
    requires
        CONTROLS_WIDTH <= columns,
    ensures
        controls_text().len() == CONTROLS_WIDTH,
        line@ == controls_text() + run_of(' ', (columns - CONTROLS_WIDTH) as nat),
{
    let controls = " Arrow Keys: Merge  R: Restart  Q: Quit";
    proof {
        reveal_strlit(" Arrow Keys: Merge  R: Restart  Q: Quit");
    }
    let mut line = controls.to_string();
    line.append(repeated(' ', columns as usize - controls.unicode_len()).as_str());
    line
}

/// The texts held by a row of strings.
pub open spec fn texts_of(row: Vec<String>) -> Seq<Seq<char>> {
    Seq::new(row@.len(), |c: int| row@[c]@)
}

/// The texts held by a table of strings.
pub open spec fn labels_of(cells: Vec<Vec<String>>) -> Seq<Seq<Seq<char>>> {
    Seq::new(cells@.len(), |r: int| texts_of(cells@[r]))
}

/// `texts` one after the other with `joint` between each two of them.
pub open spec fn join_texts(texts: Seq<Seq<char>>, joint: Seq<char>) -> Seq<char>
    decreases texts.len(),
{
    if texts.len() == 0 {
        Seq::empty()
    } else if texts.len() == 1 {
        texts[0]
    } else {
        join_texts(texts.drop_last(), joint) + joint + texts.last()
    }
}

/// The greatest byte length among `texts`, and 0 where there is none.
pub open spec fn widest_of(texts: Seq<Seq<char>>) -> nat
    decreases texts.len(),
{
    if texts.len() == 0 {
        0
    } else if widest_of(texts.drop_last()) >= byte_length(texts.last()) {
        widest_of(texts.drop_last())
    } else {
        byte_length(texts.last())
    }
}

/// The greatest byte length among the texts of `rows`, and 0 where there is none.
pub open spec fn widest_label(rows: Seq<Seq<Seq<char>>>) -> nat
    decreases rows.len(),
{
    if rows.len() == 0 {
        0
    } else if widest_label(rows.drop_last()) >= widest_of(rows.last()) {
        widest_label(rows.drop_last())
    } else {
        widest_of(rows.last())
    }
}

/// The line of a table that shows `labels`: each centred in a cell `cell_width` wide,
/// with upright strokes around and between the cells.
pub open spec fn label_row(labels: Seq<Seq<char>>, cell_width: nat) -> Seq<char> {
    seq!['│'] + join_texts(
        Seq::new(labels.len(), |c: int| centred(labels[c], cell_width)),
        seq!['│'],
    ) + seq!['│', '\n']
}

/// The three lines of a table for one row of `labels`: a line of blank cells, the line
/// of the labels, and a line of blank cells.
pub open spec fn table_row(labels: Seq<Seq<char>>, cells: nat, cell_width: nat) -> Seq<char> {
    constant_row(cells, cell_width, '│', '│', '│', ' ') + label_row(labels, cell_width)
        + constant_row(cells, cell_width, '│', '│', '│', ' ')
}

/// `rows` as a framed table. Every cell is two places wider than the widest text; the
/// table has as many cells in a line as the first row has texts.
pub open spec fn table_of(rows: Seq<Seq<Seq<char>>>) -> Seq<char>
    recommends
        rows.len() > 0,
{
    let cell_width = widest_label(rows) + 2;
    let cells = rows[0].len();
    constant_row(cells, cell_width, '┌', '┬', '┐', '─') + join_texts(
        Seq::new(rows.len(), |r: int| table_row(rows[r], cells, cell_width)),
        constant_row(cells, cell_width, '├', '┼', '┤', '─'),
    ) + constant_row(cells, cell_width, '└', '┴', '┘', '─')
}

/// No text is wider than the widest of its row.
pub proof fn lemma_widest_of_bounds(texts: Seq<Seq<char>>, c: int)
    requires
        0 <= c < texts.len(),
    ensures
        byte_length(texts[c]) <= widest_of(texts),
    decreases texts.len(),
{
    if c < texts.len() - 1 {
        lemma_widest_of_bounds(texts.drop_last(), c);
    }
}

/// No text is wider than the widest of the table.
pub proof fn lemma_widest_label_bounds(rows: Seq<Seq<Seq<char>>>, r: int, c: int)
    requires
        0 <= r < rows.len(),
        0 <= c < rows[r].len(),
    ensures
        byte_length(rows[r][c]) <= widest_label(rows),
    decreases rows.len(),
{
    if r < rows.len() - 1 {
        lemma_widest_label_bounds(rows.drop_last(), r, c);
    } else {
        lemma_widest_of_bounds(rows[r], c);
    }
}

/// The greatest byte length among the texts of `cells`.
fn widest_cell(cells: &Vec<Vec<String>>) -> (widest: usize)
    ensures
        widest == widest_label(labels_of(*cells)),
{
    let ghost rows = labels_of(*cells);
    let mut max_item_length: usize = 0;
    let mut r: usize = 0;
    assert(rows.take(0) =~= Seq::empty());
    while r < cells.len()
        invariant
            rows == labels_of(*cells),
            r <= cells@.len(),
            max_item_length == widest_label(rows.take(r as int)),
        decreases cells@.len() - r,
    {
        let row = &cells[r];
        let mut max_in_row: usize = 0;
        let mut c: usize = 0;
        assert(rows[r as int].take(0) =~= Seq::empty());
        while c < row.len()
            invariant
                rows == labels_of(*cells),
                r < cells@.len(),
                *row == cells@[r as int],
                c <= row@.len(),
                max_in_row == widest_of(rows[r as int].take(c as int)),
            decreases row@.len() - c,
        {
            let used = row[c].as_str().as_bytes().len();
            proof {
                let upto = rows[r as int].take(c + 1);
                assert(upto.drop_last() =~= rows[r as int].take(c as int));
                assert(upto.last() == row@[c as int]@);
            }
            if used > max_in_row {
                max_in_row = used;
            }
            c += 1;
        }
        proof {
            assert(rows[r as int].take(c as int) =~= rows[r as int]);
            let upto = rows.take(r + 1);
            assert(upto.drop_last() =~= rows.take(r as int));
            assert(upto.last() == rows[r as int]);
        }
        if max_in_row > max_item_length {
            max_item_length = max_in_row;
        }
        r += 1;
    }
    assert(rows.take(r as int) =~= rows);
    max_item_length
}

/// The line of a table that shows the texts of `row`.
fn create_label_row(row: &Vec<String>, cell_width: usize) -> (line: String)
    requires
        forall|c: int|
            0 <= c < row@.len() ==> byte_length(#[trigger] texts_of(*row)[c]) <= cell_width,
    ensures
        line@ == label_row(texts_of(*row), cell_width as nat),
{
    let ghost labels = texts_of(*row);
    let ghost cells = Seq::new(labels.len(), |c: int| centred(labels[c], cell_width as nat));
    let mut line = String::new();
    line.push('│');
    let mut c: usize = 0;
    assert(cells.take(0) =~= Seq::empty());
    while c < row.len()
        invariant
            labels == texts_of(*row),
            forall|c: int|
                0 <= c < labels.len() ==> byte_length(#[trigger] labels[c]) <= cell_width,
            cells == Seq::new(labels.len(), |c: int| centred(labels[c], cell_width as nat)),
            c <= row@.len(),
            line@ == seq!['│'] + join_texts(cells.take(c as int), seq!['│']),
        decreases row@.len() - c,
    {
        if c > 0 {
            line.push('│');
        }
        let item = row[c].as_str();
        assert(item@ == labels[c as int]);
        let used = item.as_bytes().len();
        let spaces_before = (cell_width - used) / 2;
        let spaces_after = (cell_width - used) - spaces_before;
        line.append(repeated(' ', spaces_before).as_str());
        line.append(item);
        line.append(repeated(' ', spaces_after).as_str());
        proof {
            let upto = cells.take(c + 1);
            assert(upto.drop_last() =~= cells.take(c as int));
            assert(upto.last() == cells[c as int]);
            assert(line@ =~= seq!['│'] + join_texts(upto, seq!['│']));
        }
        c += 1;
    }
    assert(cells.take(c as int) =~= cells);
    line.push('│');
    line.push('\n');
    assert(line@ =~= label_row(labels, cell_width as nat));
    line
}

/// `cells` as a framed table of text: every text centred in its cell, every cell two
/// places wider than the widest text.
pub fn table_text(cells: &Vec<Vec<String>>) -> (text: String)
    requires
        cells@.len() > 0,
        widest_label(labels_of(*cells)) + 2 <= usize::MAX,
    ensures
        text@ == table_of(labels_of(*cells)),
{
    let ghost rows = labels_of(*cells);
    let cell_width = widest_cell(cells) + 2;
    let grid_width = cells[0].len();
    let blank_row = create_constant_row(grid_width, cell_width, '│', '│', '│', ' ');
    let between = create_constant_row(grid_width, cell_width, '├', '┼', '┤', '─');
    let ghost parts = Seq::new(
        rows.len(),
        |r: int| table_row(rows[r], grid_width as nat, cell_width as nat),
    );
    let mut text = create_constant_row(grid_width, cell_width, '┌', '┬', '┐', '─');
    let ghost top = text@;
    let mut r: usize = 0;
    assert(parts.take(0) =~= Seq::empty());
    while r < cells.len()
        invariant
            rows == labels_of(*cells),
            cell_width == widest_label(rows) + 2,
            blank_row@ == constant_row(
                grid_width as nat,
                cell_width as nat,
                '│',
                '│',
                '│',
                ' ',
            ),
            between@ == constant_row(
                grid_width as nat,
                cell_width as nat,
                '├',
                '┼',
                '┤',
                '─',
            ),
            parts == Seq::new(
                rows.len(),
                |r: int| table_row(rows[r], grid_width as nat, cell_width as nat),
            ),
            r <= cells@.len(),
            text@ == top + join_texts(parts.take(r as int), between@),
        decreases cells@.len() - r,
    {
        if r > 0 {
            text.append(between.as_str());
        }
        proof {
            assert forall|c: int| 0 <= c < rows[r as int].len() implies byte_length(
                #[trigger] rows[r as int][c],
            ) <= cell_width by {
                lemma_widest_label_bounds(rows, r as int, c);
            }
        }
        text.append(blank_row.as_str());
        text.append(create_label_row(&cells[r], cell_width).as_str());
        text.append(blank_row.as_str());
        proof {
            let upto = parts.take(r + 1);
            assert(upto.drop_last() =~= parts.take(r as int));
            assert(upto.last() == parts[r as int]);
            assert(text@ =~= top + join_texts(upto, between@));
        }
        r += 1;
    }
    assert(parts.take(r as int) =~= parts);
    text.append(create_constant_row(grid_width, cell_width, '└', '┴', '┘', '─').as_str());
    text
}

} // verus!
