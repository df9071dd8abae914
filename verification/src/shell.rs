//! The decisions of the interactive shell: what a key does to the cursor,
//! to the mode and to the text being edited, and where things stand on the
//! screen. Reading keys and drawing are left to the program around it.

use crate::grid::TextGrid;
use crate::model::CellAddress;
use crate::text::{byte_len, utf8_len};
use vstd::prelude::*;
use vstd::string::*;

verus! {

pub const CELL_WIDTH: i32 = 7;

pub const CELL_HEIGHT: i32 = 1;

pub const CELL_HORIZ_OFFSET: i32 = 3;

pub const CELL_VERT_OFFSET: i32 = 1;

/// The largest number of rows or columns whose screen positions can be
/// computed in 32 bits.
pub const MAX_DIMENSION: i32 = 0x0fff_ffff;

/// `String::push` of the standard library: appends `c` to the end of `text`.
#[verifier::external_body]
fn push_char(text: &mut String, c: char)
    ensures
        final(text)@ == old(text)@.push(c),
{
    text.push(c);
}

/// `char::from_u32` of the standard library: the character with the code
/// `code`, where `code` is a Unicode scalar value.
#[verifier::external_body]
fn char_of(code: u32) -> (r: Option<char>)
    ensures
        r == if code <= 0xD7FF || 0xE000 <= code <= 0x10FFFF {
            Some(code as char)
        } else {
            None::<char>
        },
{
    char::from_u32(code)
}

/// `s` with `c` put in: at the end where `idx` is the length of `s` in
/// bytes, else before the character with index `idx`, if there is one.
pub open spec fn replaced(s: Seq<char>, idx: int, c: char) -> Seq<char> {
    if idx == utf8_len(s) {
        s.push(c)
    } else if 0 <= idx < s.len() {
        s.subrange(0, idx).push(c) + s.subrange(idx, s.len() as int)
    } else {
        s
    }
}

/// `s` without the character with index `idx`, if there is one.
pub open spec fn removed(s: Seq<char>, idx: int) -> Seq<char> {
    if 0 <= idx < s.len() {
        s.subrange(0, idx) + s.subrange(idx + 1, s.len() as int)
    } else {
        s
    }
}

pub fn replace_nth_char(s: &str, idx: usize, newchar: char) -> (r: String)
    ensures
        r@ == replaced(s@, idx as int, newchar),
{
    let count = s.unicode_len();
    if idx == byte_len(s) {
        let mut r = s.to_owned();
        push_char(&mut r, newchar);
        r
    } else if idx < count {
        let mut r = s.substring_char(0, idx).to_owned();
        push_char(&mut r, newchar);
        r.append(s.substring_char(idx, count));
        r
    } else {
        s.to_owned()
    }
}

pub fn remove_nth_char(s: &str, idx: usize) -> (r: String)
    ensures
        r@ == removed(s@, idx as int),
{
    let count = s.unicode_len();
    if idx < count {
        let mut r = s.substring_char(0, idx).to_owned();
        r.append(s.substring_char(idx + 1, count));
        r
    } else {
        s.to_owned()
    }
}

/// The cell under a cursor position: its first coordinate is the second
/// one of the position.
pub fn cursor_pos_to_cell_address(cursor_pos: (i32, i32)) -> (r: CellAddress)
    ensures
        r == CellAddress(cursor_pos.1, cursor_pos.0),
{
    CellAddress(cursor_pos.1, cursor_pos.0)
}

/// What the keys do: move over the grid, or edit the text of a cell.
#[derive(Debug, Clone, Copy, PartialEq, Eq, Structural)]
pub enum Mode {
    Grid,
    Editor,
}

/// The codes of the keys that are no characters.
#[derive(Debug, Clone, Copy, PartialEq, Eq)]
pub struct Keys {
    pub up: i32,
    pub down: i32,
    pub left: i32,
    pub right: i32,
    pub backspace: i32,
    pub enter: i32,
}

/// What the program is to do after a key.
#[derive(Debug, Clone, Copy, PartialEq, Eq, Structural)]
pub enum Reaction {
    /// End the program.
    Quit,
    /// Show the text in the editor: the keys edit it from now on.
    Edit,
    /// The cursor is on another cell: show the text and the value of that cell.
    Moved,
    /// Nothing has changed.
    Stay,
    /// Set the text of the cell under the cursor to the text that was
    /// edited, and show the value of the cell.
    Commit,
    /// Put the editor's cursor in the given column and delete the character there.
    Erased(i32),
    /// Put the editor's cursor in the given column.
    Cursor(i32),
    /// Show the text again and put the editor's cursor in the given column.
    Typed(i32),
}

/// The state of the shell.
pub struct Shell {
    pub grid_dimensions: (i32, i32),
    pub mode: Mode,
    pub text: String,
    pub grid_cursor: (i32, i32),
}

/// A shell in specifications.
pub struct ShellView {
    pub grid_dimensions: (i32, i32),
    pub mode: Mode,
    pub text: Seq<char>,
    pub grid_cursor: (i32, i32),
}

impl View for Shell {
    type V = ShellView;

    open spec fn view(&self) -> ShellView {
        ShellView {
            grid_dimensions: self.grid_dimensions,
            mode: self.mode,
            text: self.text@,
            grid_cursor: self.grid_cursor,
        }
    }
}

/// The position one step back, around the edge.
pub open spec fn step_back(position: i32, size: i32) -> i32 {
    if position == 0 {
        (size - 1) as i32
    } else {
        (position - 1) as i32
    }
}

/// The position one step on, around the edge.
pub open spec fn step_on(position: i32, size: i32) -> i32 {
    if position + 1 == size {
        0
    } else {
        (position + 1) as i32
    }
}

/// The text of a cell, or the empty text for a cell without one.
pub open spec fn text_of(texts: Map<CellAddress, Seq<char>>, address: CellAddress) -> Seq<char> {
    if texts.contains_key(address) {
        texts[address]
    } else {
        Seq::empty()
    }
}

impl ShellView {
    /// The dimensions are positive and small enough for the screen, and the
    /// cursor lies in the grid.
    pub open spec fn wf(self) -> bool {
        &&& 0 < self.grid_dimensions.0 <= MAX_DIMENSION
        &&& 0 < self.grid_dimensions.1 <= MAX_DIMENSION
        &&& 0 <= self.grid_cursor.0 < self.grid_dimensions.0
        &&& 0 <= self.grid_cursor.1 < self.grid_dimensions.1
    }

    /// The cell under the cursor.
    pub open spec fn address(self) -> CellAddress {
        CellAddress(self.grid_cursor.1, self.grid_cursor.0)
    }

    /// The shell with the cursor at `cursor`, and the text of the cell there.
    pub open spec fn moved_to(self, cursor: (i32, i32), texts: Map<CellAddress, Seq<char>>) -> ShellView {
        ShellView {
            grid_cursor: cursor,
            text: text_of(texts, CellAddress(cursor.1, cursor.0)),
            ..self
        }
    }

    /// What a key does while the keys move over the grid: `q` ends the
    /// program, a line feed starts editing, an arrow moves the cursor by
    /// one cell, around the edges of the grid.
    pub open spec fn after_grid_key(self, key: i32, keys: Keys, texts: Map<CellAddress, Seq<char>>) -> (
        ShellView,
        Reaction,
    ) {
        if key == 'q' as i32 {
            (self, Reaction::Quit)
        } else if key == '\n' as i32 {
            (ShellView { mode: Mode::Editor, ..self }, Reaction::Edit)
        } else if key == keys.up {
            (
                self.moved_to(
                    (step_back(self.grid_cursor.0, self.grid_dimensions.0), self.grid_cursor.1),
                    texts,
                ),
                Reaction::Moved,
            )
        } else if key == keys.down {
            (
                self.moved_to(
                    (step_on(self.grid_cursor.0, self.grid_dimensions.0), self.grid_cursor.1),
                    texts,
                ),
                Reaction::Moved,
            )
        } else if key == keys.left {
            (
                self.moved_to(
                    (self.grid_cursor.0, step_back(self.grid_cursor.1, self.grid_dimensions.1)),
                    texts,
                ),
                Reaction::Moved,
            )
        } else if key == keys.right {
            (
                self.moved_to(
                    (self.grid_cursor.0, step_on(self.grid_cursor.1, self.grid_dimensions.1)),
                    texts,
                ),
                Reaction::Moved,
            )
        } else {
            (self, Reaction::Stay)
        }
    }

    /// What a key does while the keys edit the text, with the editor's
    /// cursor in column `column`: the enter key or a line feed ends the
    /// editing, the backspace key takes out the character before the
    /// cursor, the arrows move the cursor within the text, and any other
    /// key puts its character in at the cursor.
    pub open spec fn after_editor_key(self, key: i32, keys: Keys, column: i32) -> (
        ShellView,
        Reaction,
    ) {
        if key == keys.enter || key == '\n' as i32 {
            (ShellView { mode: Mode::Grid, ..self }, Reaction::Commit)
        } else if key == keys.backspace {
            (
                ShellView { text: removed(self.text, column - 1), ..self },
                Reaction::Erased(
                    if column >= 1 {
                        (column - 1) as i32
                    } else {
                        0
                    },
                ),
            )
        } else if key == keys.left {
            (
                self,
                Reaction::Cursor(
                    if column >= 1 {
                        (column - 1) as i32
                    } else {
                        0
                    },
                ),
            )
        } else if key == keys.right {
            (
                self,
                Reaction::Cursor(
                    if column + 1 <= utf8_len(self.text) {
                        (column + 1) as i32
                    } else {
                        utf8_len(self.text) as i32
                    },
                ),
            )
        } else {
            (
                ShellView { text: replaced(self.text, column as int, key as char), ..self },
                Reaction::Typed((column + 1) as i32),
            )
        }
    }
}

/// True when `key` is the code of a character.
pub open spec fn is_char_code(key: i32) -> bool {
    0 <= key <= 0xD7FF || 0xE000 <= key <= 0x10FFFF
}

impl Shell {
    /// A shell for a grid of the given dimensions, with the cursor on the
    /// first cell.
    pub fn new(grid_dimensions: (i32, i32)) -> (r: Shell)
        requires
            0 < grid_dimensions.0 <= MAX_DIMENSION,
            0 < grid_dimensions.1 <= MAX_DIMENSION,
        ensures
            r@.wf(),
            r@ == (ShellView {
                grid_dimensions,
                mode: Mode::Grid,
                text: Seq::empty(),
                grid_cursor: (0, 0),
            }),
    {
        Shell { grid_dimensions, mode: Mode::Grid, text: String::new(), grid_cursor: (0, 0) }
    }

    /// The cell under the cursor.
    pub fn address(&self) -> (r: CellAddress)
        ensures
            r == self@.address(),
    {
        cursor_pos_to_cell_address(self.grid_cursor)
    }

    /// Puts the cursor at `cursor` and takes up the text of the cell there.
    fn move_to(&mut self, cursor: (i32, i32), grid: &TextGrid)
        ensures
            final(self)@ == old(self)@.moved_to(cursor, grid@.texts),
    {
        self.grid_cursor = cursor;
        self.text = match grid.get_cell_text(cursor_pos_to_cell_address(cursor)) {
            Some(text) => text.clone(),
            None => String::new(),
        };
    }

    /// Takes a key while the keys move over the grid.
    pub fn grid_key(&mut self, key: i32, keys: &Keys, grid: &TextGrid) -> (r: Reaction)
        requires
            old(self)@.wf(),
        ensures
            final(self)@.wf(),
            (final(self)@, r) == old(self)@.after_grid_key(key, *keys, grid@.texts),
    {
        let (row, column) = self.grid_cursor;
        let (rows, columns) = self.grid_dimensions;
        if key == 'q' as i32 {
            Reaction::Quit
        } else if key == '\n' as i32 {
            self.mode = Mode::Editor;
            Reaction::Edit
        } else if key == keys.up {
            self.move_to((if row == 0 { rows - 1 } else { row - 1 }, column), grid);
            Reaction::Moved
        } else if key == keys.down {
            self.move_to((if row + 1 == rows { 0 } else { row + 1 }, column), grid);
            Reaction::Moved
        } else if key == keys.left {
            self.move_to((row, if column == 0 { columns - 1 } else { column - 1 }), grid);
            Reaction::Moved
        } else if key == keys.right {
            self.move_to((row, if column + 1 == columns { 0 } else { column + 1 }), grid);
            Reaction::Moved
        } else {
            Reaction::Stay
        }
    }

    /// Takes a key while the keys edit the text, with the editor's cursor
    /// in column `column`.
    pub fn editor_key(&mut self, key: i32, keys: &Keys, column: i32) -> (r: Reaction)
        requires
            0 <= column < i32::MAX,
            key == keys.backspace && key != keys.enter && key != '\n' as i32 && old(self)@.text.len()
                > 0 ==> column >= 1,
            key != keys.enter && key != '\n' as i32 && key != keys.backspace && key != keys.left
                && key != keys.right ==> is_char_code(key),
        ensures
            (final(self)@, r) == old(self)@.after_editor_key(key, *keys, column),
    {
        if key == keys.enter || key == '\n' as i32 {
            self.mode = Mode::Grid;
            Reaction::Commit
        } else if key == keys.backspace {
            if column >= 1 {
                self.text = remove_nth_char(self.text.as_str(), (column - 1) as usize);
            }
            Reaction::Erased(if column >= 1 { column - 1 } else { 0 })
        } else if key == keys.left {
            Reaction::Cursor(if column >= 1 { column - 1 } else { 0 })
        } else if key == keys.right {
            let length = byte_len(self.text.as_str());
            Reaction::Cursor(
                if (column as u64) + 1 <= length as u64 {
                    column + 1
                } else {
                    length as i32
                },
            )
        } else {
            let c = char_of(key as u32);
            match c {
                Some(c) => {
                    self.text = replace_nth_char(self.text.as_str(), column as usize, c);
                },
                None => {},
            }
            Reaction::Typed(column + 1)
        }
    }
}

/// A line of cells takes two screen lines, a column of cells eight screen columns.
proof fn lemma_steps(row: int, column: int)
    ensures
        row * (CELL_HEIGHT + 1) == 2 * row,
        (1 + CELL_HEIGHT) * row == 2 * row,
        column * (CELL_WIDTH + 1) == 8 * column,
        (1 + CELL_WIDTH) * column == 8 * column,
{
    assert(row * (CELL_HEIGHT + 1) == 2 * row) by (nonlinear_arith)
        requires
            CELL_HEIGHT == 1,
    ;
    assert((1 + CELL_HEIGHT) * row == 2 * row) by (nonlinear_arith)
        requires
            CELL_HEIGHT == 1,
    ;
    assert(column * (CELL_WIDTH + 1) == 8 * column) by (nonlinear_arith)
        requires
            CELL_WIDTH == 7,
    ;
    assert((1 + CELL_WIDTH) * column == 8 * column) by (nonlinear_arith)
        requires
            CELL_WIDTH == 7,
    ;
}

/// The screen line of the cells with the first cursor coordinate `row`.
pub open spec fn line_of(row: int) -> int {
    row * (CELL_HEIGHT + 1) + CELL_VERT_OFFSET + 1
}

/// The screen column where the cells with the second cursor coordinate
/// `column` start.
pub open spec fn column_of(column: int) -> int {
    column * (CELL_WIDTH + 1) + CELL_HORIZ_OFFSET + 1
}

/// The screen position, line then column, of the cell with the cursor
/// position `cursor`.
pub fn cell_position(cursor: (i32, i32)) -> (r: (i32, i32))
    requires
        0 <= cursor.0 < MAX_DIMENSION,
        0 <= cursor.1 < MAX_DIMENSION,
    ensures
        r.0 == line_of(cursor.0 as int),
        r.1 == column_of(cursor.1 as int),
{
    proof {
        lemma_steps(cursor.0 as int, cursor.1 as int);
    }
    (
        cursor.0 * (CELL_HEIGHT + 1) + CELL_VERT_OFFSET + 1,
        cursor.1 * (CELL_WIDTH + 1) + CELL_HORIZ_OFFSET + 1,
    )
}

/// The screen position of the value of the cell at `address`, as far as
/// the cell lies in a grid of the given dimensions.
pub fn value_position(address: CellAddress, grid_dimensions: (i32, i32)) -> (r: Option<(i32, i32)>)
    requires
        0 < grid_dimensions.0 <= MAX_DIMENSION,
        0 < grid_dimensions.1 <= MAX_DIMENSION,
    ensures
        r == if 0 <= address.1 < grid_dimensions.0 && 0 <= address.0 < grid_dimensions.1 {
            Some((line_of(address.1 as int) as i32, column_of(address.0 as int) as i32))
        } else {
            None
        },
{
    if 0 <= address.1 && address.1 < grid_dimensions.0 && 0 <= address.0 && address.0
        < grid_dimensions.1 {
        Some(cell_position((address.1, address.0)))
    } else {
        None
    }
}

/// The width of the drawn grid in characters.
pub fn grid_char_width(columns: i32) -> (r: i32)
    requires
        0 <= columns <= MAX_DIMENSION,
    ensures
        r == 1 + (1 + CELL_WIDTH) * columns,
{
    proof {
        lemma_steps(0, columns as int);
    }
    1 + (1 + CELL_WIDTH) * columns
}

/// The height of the drawn grid in characters.
pub fn grid_char_height(rows: i32) -> (r: i32)
    requires
        0 <= rows <= MAX_DIMENSION,
    ensures
        r == 1 + (1 + CELL_HEIGHT) * rows,
{
    proof {
        lemma_steps(rows as int, 0);
    }
    1 + (1 + CELL_HEIGHT) * rows
}

/// The screen column of the label of column `column`.
pub fn column_label_position(column: i32) -> (r: i32)
    requires
        0 <= column < MAX_DIMENSION,
    ensures
        r == column * (CELL_WIDTH + 1) + 1 + CELL_HORIZ_OFFSET,
{
    proof {
        lemma_steps(0, column as int);
    }
    column * (CELL_WIDTH + 1) + 1 + CELL_HORIZ_OFFSET
}

/// The screen column of the vertical line after column `column`.
pub fn column_line_position(column: i32) -> (r: i32)
    requires
        0 <= column < MAX_DIMENSION,
    ensures
        r == (1 + CELL_WIDTH) * (column + 1) + CELL_HORIZ_OFFSET,
{
    proof {
        lemma_steps(0, column + 1);
    }
    (1 + CELL_WIDTH) * (column + 1) + CELL_HORIZ_OFFSET
}

/// The screen line of the label of row `row`.
pub fn row_label_position(row: i32) -> (r: i32)
    requires
        0 <= row < MAX_DIMENSION,
    ensures
        r == row * (CELL_HEIGHT + 1) + 1 + CELL_VERT_OFFSET,
{
    proof {
        lemma_steps(row as int, 0);
    }
    row * (CELL_HEIGHT + 1) + 1 + CELL_VERT_OFFSET
}

/// The screen line of the horizontal line after row `row`.
pub fn row_line_position(row: i32) -> (r: i32)
    requires
        0 <= row < MAX_DIMENSION,
    ensures
        r == (1 + CELL_HEIGHT) * (row + 1) + CELL_VERT_OFFSET,
{
    proof {
        lemma_steps(row + 1, 0);
    }
    (1 + CELL_HEIGHT) * (row + 1) + CELL_VERT_OFFSET
}

/// What fits of `text` in a cell: its first characters, as many as a cell
/// is wide.
pub fn cell_label(text: &str) -> (r: String)
    ensures
        r@ == if text@.len() <= CELL_WIDTH {
            text@
        } else {
            text@.subrange(0, CELL_WIDTH as int)
        },
{
    let count = text.unicode_len();
    if count <= CELL_WIDTH as usize {
        text.to_owned()
    } else {
        text.substring_char(0, CELL_WIDTH as usize).to_owned()
    }
}

} // verus!
