use spreadterm::floats::FloatFact;
use spreadterm::grid::TextGrid;
use spreadterm::model::CellAddress;
use spreadterm::shell::{
    cell_label, cell_position, column_label_position, column_line_position,
    cursor_pos_to_cell_address, grid_char_height, grid_char_width, remove_nth_char,
    replace_nth_char, row_label_position, row_line_position, value_position, Keys, Mode, Reaction,
    Shell,
};

const KEYS: Keys = Keys { up: 259, down: 258, left: 260, right: 261, backspace: 263, enter: 343 };

fn grid_with(cells: &[(i32, i32, &str)]) -> TextGrid {
    let mut grid = TextGrid::new((10, 10));
    let floats: Vec<FloatFact> = Vec::new();
    for (row, column, text) in cells {
        assert_eq!(grid.set_cell_text(CellAddress(*row, *column), text.to_string(), &floats), None);
    }
    grid
}

#[test]
fn replace_puts_a_character_in() {
    assert_eq!(replace_nth_char("abc", 0, 'x'), "xabc");
    assert_eq!(replace_nth_char("abc", 1, 'x'), "axbc");
    assert_eq!(replace_nth_char("abc", 2, 'x'), "abxc");
    assert_eq!(replace_nth_char("abc", 3, 'x'), "abcx");
    assert_eq!(replace_nth_char("abc", 4, 'x'), "abc");
    assert_eq!(replace_nth_char("", 0, 'x'), "x");
    assert_eq!(replace_nth_char("", 1, 'x'), "");
}

#[test]
fn replace_counts_the_end_in_bytes() {
    assert_eq!(replace_nth_char("\u{e9}", 0, 'x'), "x\u{e9}");
    assert_eq!(replace_nth_char("\u{e9}", 1, 'x'), "\u{e9}");
    assert_eq!(replace_nth_char("\u{e9}", 2, 'x'), "\u{e9}x");
    assert_eq!(replace_nth_char("a\u{e9}b", 3, 'x'), "a\u{e9}b");
    assert_eq!(replace_nth_char("a\u{e9}b", 4, 'x'), "a\u{e9}bx");
}

#[test]
fn remove_takes_a_character_out() {
    assert_eq!(remove_nth_char("abc", 0), "bc");
    assert_eq!(remove_nth_char("abc", 1), "ac");
    assert_eq!(remove_nth_char("abc", 2), "ab");
    assert_eq!(remove_nth_char("abc", 3), "abc");
    assert_eq!(remove_nth_char("", 0), "");
    assert_eq!(remove_nth_char("a\u{e9}b", 1), "ab");
}

#[test]
fn cursor_position_names_a_cell() {
    assert_eq!(cursor_pos_to_cell_address((2, 5)), CellAddress(5, 2));
    assert_eq!(cursor_pos_to_cell_address((0, 0)), CellAddress(0, 0));
}

#[test]
fn fresh_shell() {
    let shell = Shell::new((10, 7));
    assert_eq!(shell.grid_dimensions, (10, 7));
    assert_eq!(shell.mode, Mode::Grid);
    assert_eq!(shell.text, "");
    assert_eq!(shell.grid_cursor, (0, 0));
    assert_eq!(shell.address(), CellAddress(0, 0));
}

#[test]
fn arrows_move_the_cursor_around_the_edges() {
    let grid = grid_with(&[]);
    let mut shell = Shell::new((3, 2));
    assert_eq!(shell.grid_key(KEYS.up, &KEYS, &grid), Reaction::Moved);
    assert_eq!(shell.grid_cursor, (2, 0));
    assert_eq!(shell.grid_key(KEYS.down, &KEYS, &grid), Reaction::Moved);
    assert_eq!(shell.grid_cursor, (0, 0));
    assert_eq!(shell.grid_key(KEYS.down, &KEYS, &grid), Reaction::Moved);
    assert_eq!(shell.grid_cursor, (1, 0));
    assert_eq!(shell.grid_key(KEYS.left, &KEYS, &grid), Reaction::Moved);
    assert_eq!(shell.grid_cursor, (1, 1));
    assert_eq!(shell.grid_key(KEYS.right, &KEYS, &grid), Reaction::Moved);
    assert_eq!(shell.grid_cursor, (1, 0));
    assert_eq!(shell.grid_key(KEYS.right, &KEYS, &grid), Reaction::Moved);
    assert_eq!(shell.grid_cursor, (1, 1));
    assert_eq!(shell.grid_key(KEYS.up, &KEYS, &grid), Reaction::Moved);
    assert_eq!(shell.grid_cursor, (0, 1));
    assert_eq!(shell.address(), CellAddress(1, 0));
}

#[test]
fn moving_takes_up_the_text_of_the_cell() {
    let grid = grid_with(&[(0, 1, "=1+1"), (1, 0, "7")]);
    let mut shell = Shell::new((10, 10));
    assert_eq!(shell.grid_key(KEYS.down, &KEYS, &grid), Reaction::Moved);
    assert_eq!(shell.address(), CellAddress(0, 1));
    assert_eq!(shell.text, "=1+1");
    assert_eq!(shell.grid_key(KEYS.right, &KEYS, &grid), Reaction::Moved);
    assert_eq!(shell.text, "");
    assert_eq!(shell.grid_key(KEYS.up, &KEYS, &grid), Reaction::Moved);
    assert_eq!(shell.address(), CellAddress(1, 0));
    assert_eq!(shell.text, "7");
}

#[test]
fn other_keys_of_the_grid() {
    let grid = grid_with(&[]);
    let mut shell = Shell::new((10, 10));
    assert_eq!(shell.grid_key('x' as i32, &KEYS, &grid), Reaction::Stay);
    assert_eq!(shell.grid_key(KEYS.backspace, &KEYS, &grid), Reaction::Stay);
    assert_eq!(shell.mode, Mode::Grid);
    assert_eq!(shell.grid_key('q' as i32, &KEYS, &grid), Reaction::Quit);
    assert_eq!(shell.mode, Mode::Grid);
    assert_eq!(shell.grid_key('\n' as i32, &KEYS, &grid), Reaction::Edit);
    assert_eq!(shell.mode, Mode::Editor);
    assert_eq!(shell.grid_cursor, (0, 0));
}

#[test]
fn typing_puts_characters_in_at_the_cursor() {
    let mut shell = Shell::new((10, 10));
    shell.mode = Mode::Editor;
    assert_eq!(shell.editor_key('a' as i32, &KEYS, 0), Reaction::Typed(1));
    assert_eq!(shell.editor_key('c' as i32, &KEYS, 1), Reaction::Typed(2));
    assert_eq!(shell.editor_key('b' as i32, &KEYS, 1), Reaction::Typed(2));
    assert_eq!(shell.text, "abc");
    assert_eq!(shell.editor_key('q' as i32, &KEYS, 3), Reaction::Typed(4));
    assert_eq!(shell.text, "abcq");
    assert_eq!(shell.editor_key(KEYS.up, &KEYS, 0), Reaction::Typed(1));
    assert_eq!(shell.text, "\u{103}abcq");
    assert_eq!(shell.mode, Mode::Editor);
}

#[test]
fn backspace_takes_out_the_character_before_the_cursor() {
    let mut shell = Shell::new((10, 10));
    shell.mode = Mode::Editor;
    shell.text = "abc".to_string();
    assert_eq!(shell.editor_key(KEYS.backspace, &KEYS, 2), Reaction::Erased(1));
    assert_eq!(shell.text, "ac");
    assert_eq!(shell.editor_key(KEYS.backspace, &KEYS, 1), Reaction::Erased(0));
    assert_eq!(shell.text, "c");
    assert_eq!(shell.editor_key(KEYS.backspace, &KEYS, 5), Reaction::Erased(4));
    assert_eq!(shell.text, "c");
    shell.text = String::new();
    assert_eq!(shell.editor_key(KEYS.backspace, &KEYS, 0), Reaction::Erased(0));
    assert_eq!(shell.text, "");
}

#[test]
fn arrows_move_within_the_text() {
    let mut shell = Shell::new((10, 10));
    shell.mode = Mode::Editor;
    shell.text = "abc".to_string();
    assert_eq!(shell.editor_key(KEYS.left, &KEYS, 2), Reaction::Cursor(1));
    assert_eq!(shell.editor_key(KEYS.left, &KEYS, 0), Reaction::Cursor(0));
    assert_eq!(shell.editor_key(KEYS.right, &KEYS, 0), Reaction::Cursor(1));
    assert_eq!(shell.editor_key(KEYS.right, &KEYS, 2), Reaction::Cursor(3));
    assert_eq!(shell.editor_key(KEYS.right, &KEYS, 3), Reaction::Cursor(3));
    assert_eq!(shell.editor_key(KEYS.right, &KEYS, 9), Reaction::Cursor(3));
    assert_eq!(shell.text, "abc");
}

#[test]
fn enter_ends_the_editing() {
    let mut shell = Shell::new((10, 10));
    shell.mode = Mode::Editor;
    shell.text = "=1".to_string();
    assert_eq!(shell.editor_key(KEYS.enter, &KEYS, 1), Reaction::Commit);
    assert_eq!(shell.mode, Mode::Grid);
    assert_eq!(shell.text, "=1");
    shell.mode = Mode::Editor;
    assert_eq!(shell.editor_key('\n' as i32, &KEYS, 0), Reaction::Commit);
    assert_eq!(shell.mode, Mode::Grid);
}

#[test]
fn screen_positions() {
    assert_eq!(cell_position((0, 0)), (2, 4));
    assert_eq!(cell_position((3, 2)), (8, 20));
    assert_eq!(value_position(CellAddress(2, 3), (10, 10)), Some((8, 20)));
    assert_eq!(value_position(CellAddress(0, 10), (10, 10)), None);
    assert_eq!(value_position(CellAddress(-1, 0), (10, 10)), None);
    assert_eq!(value_position(CellAddress(9, 0), (1, 10)), Some((2, 76)));
    assert_eq!(grid_char_width(10), 81);
    assert_eq!(grid_char_height(10), 21);
    assert_eq!(column_label_position(0), 4);
    assert_eq!(column_label_position(2), 20);
    assert_eq!(column_line_position(0), 11);
    assert_eq!(column_line_position(9), 83);
    assert_eq!(row_label_position(0), 2);
    assert_eq!(row_label_position(9), 20);
    assert_eq!(row_line_position(0), 3);
    assert_eq!(row_line_position(9), 21);
}

#[test]
fn label_is_as_wide_as_a_cell_at_most() {
    assert_eq!(cell_label(""), "");
    assert_eq!(cell_label("1234567"), "1234567");
    assert_eq!(cell_label("12345678"), "1234567");
    assert_eq!(cell_label("-2147483648"), "-214748");
    assert_eq!(cell_label("\u{e9}\u{e9}\u{e9}\u{e9}\u{e9}\u{e9}\u{e9}\u{e9}"), "\u{e9}\u{e9}\u{e9}\u{e9}\u{e9}\u{e9}\u{e9}");
}
