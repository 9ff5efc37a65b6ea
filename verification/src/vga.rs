//! The VGA text console: 80 columns by 25 rows of cells, each a character
//! and its colour attribute, written from a cursor.
use vstd::prelude::*;

verus! {

/// The number of columns.
pub const VGA_WIDTH: usize = 80;

/// The number of rows.
pub const VGA_HEIGHT: usize = 25;

/// Light grey on black.
pub const DEFAULT_ATTRIBUTE: u8 = 0x07;

/// One cell of the screen.
#[derive(Clone, Copy, Debug, PartialEq, Eq, Structural)]
pub struct VgaCell {
    pub character: u8,
    pub attribute: u8,
}

/// The screen's cells and the cursor.
pub struct VgaConsole {
    cells: Vec<VgaCell>,
    x: usize,
    y: usize,
}

/// The cells and the cursor (column, row).
pub struct ConsoleState {
    pub cells: Seq<VgaCell>,
    pub x: int,
    pub y: int,
}

/// `state` after writing `character`: a newline moves to the start of the
/// next row; any other character is stored (its code point's low byte) in
/// the cell under the cursor, which then moves on, to the next row after
/// the last column.
pub open spec fn after_character(state: ConsoleState, character: char) -> ConsoleState {
    if character == '\n' {
        ConsoleState { cells: state.cells, x: 0, y: state.y + 1 }
    } else {
        let index = state.y * VGA_WIDTH + state.x;
        let cell = VgaCell { character: (character as u32) as u8, attribute: state.cells[index].attribute };
        let cells = state.cells.update(index, cell);
        if state.x + 1 == VGA_WIDTH {
            ConsoleState { cells, x: 0, y: state.y + 1 }
        } else {
            ConsoleState { cells, x: state.x + 1, y: state.y }
        }
    }
}

/// `state` after writing `characters` in order.
pub open spec fn after_string(state: ConsoleState, characters: Seq<char>) -> ConsoleState
    decreases characters.len(),
{
    if characters.len() == 0 {
        state
    } else {
        after_character(after_string(state, characters.drop_last()), characters.last())
    }
}

/// Every character of `characters` that is stored lands on the screen.
pub open spec fn fits_on_screen(state: ConsoleState, characters: Seq<char>) -> bool {
    forall|i: int|
        0 <= i < characters.len() && characters[i] != '\n' ==> {
            let before = #[trigger] after_string(state, characters.take(i));
            before.y * VGA_WIDTH + before.x < VGA_WIDTH * VGA_HEIGHT
        }
}

impl VgaConsole {
    /// The cells and the cursor.
    pub closed spec fn state(&self) -> ConsoleState {
        ConsoleState { cells: self.cells@, x: self.x as int, y: self.y as int }
    }

    /// There is a cell for every column of every row, and the cursor is in
    /// a column.
    pub closed spec fn wf(&self) -> bool {
        &&& self.cells@.len() == VGA_WIDTH * VGA_HEIGHT
        &&& self.x < VGA_WIDTH
    }

    /// A blank screen, with the cursor at the top left.
    pub fn new() -> (r: Self)
        ensures
            r.wf(),
            r.state().cells == Seq::new(
                (VGA_WIDTH * VGA_HEIGHT) as nat,
                |i: int| VgaCell { character: 0x20, attribute: DEFAULT_ATTRIBUTE },
            ),
            r.state().x == 0 && r.state().y == 0,
    {
        let mut cells: Vec<VgaCell> = Vec::new();
        let mut i: usize = 0;
        while i < VGA_WIDTH * VGA_HEIGHT
            invariant
                i <= VGA_WIDTH * VGA_HEIGHT,
                cells@ == Seq::new(i as nat, |j: int| VgaCell { character: 0x20, attribute: DEFAULT_ATTRIBUTE }),
            decreases VGA_WIDTH * VGA_HEIGHT - i,
        {
            cells.push(VgaCell { character: 0x20, attribute: DEFAULT_ATTRIBUTE });
            i = i + 1;
        }
        VgaConsole { cells, x: 0, y: 0 }
    }

    /// The cursor: its column and its row.
    pub fn cursor(&self) -> (r: (usize, usize))
        ensures
            r.0 == self.state().x && r.1 == self.state().y,
    {
        (self.x, self.y)
    }

    /// The cells, row by row.
    pub fn cells(&self) -> (r: &[VgaCell])
        ensures
            r@ == self.state().cells,
    {
        self.cells.as_slice()
    }

    /// Blanks every cell (a space, light grey on black) and moves the
    /// cursor to the top left.
    pub fn clear(&mut self)
        requires
            old(self).wf(),
        ensures
            final(self).wf(),
            final(self).state().cells == Seq::new(
                (VGA_WIDTH * VGA_HEIGHT) as nat,
                |i: int| VgaCell { character: 0x20, attribute: DEFAULT_ATTRIBUTE },
            ),
            final(self).state().x == 0 && final(self).state().y == 0,
    {
        let mut i: usize = 0;
        while i < VGA_WIDTH * VGA_HEIGHT
            invariant
                i <= VGA_WIDTH * VGA_HEIGHT,
                self.cells@.len() == VGA_WIDTH * VGA_HEIGHT,
                forall|j: int| 0 <= j < i ==> self.cells@[j] == (VgaCell { character: 0x20, attribute: DEFAULT_ATTRIBUTE }),
            decreases VGA_WIDTH * VGA_HEIGHT - i,
        {
            self.cells.set(i, VgaCell { character: 0x20, attribute: DEFAULT_ATTRIBUTE });
            i = i + 1;
        }
        self.x = 0;
        self.y = 0;
        assert(self.cells@ =~= Seq::new(
            (VGA_WIDTH * VGA_HEIGHT) as nat,
            |i: int| VgaCell { character: 0x20, attribute: DEFAULT_ATTRIBUTE },
        ));
    }

    /// Writes `character` at the cursor (see [`after_character`]).
    pub fn write_character(&mut self, character: char)
        requires
            old(self).wf(),
            character == '\n' ==> old(self).state().y < usize::MAX,
            character != '\n' ==> old(self).state().y * VGA_WIDTH + old(self).state().x < VGA_WIDTH * VGA_HEIGHT,
        ensures
            final(self).wf(),
            final(self).state() == after_character(old(self).state(), character),
    {
        if character == '\n' {
            self.x = 0;
            self.y = self.y + 1;
            return;
        }
        let index = self.y * VGA_WIDTH + self.x;
        let attribute = self.cells[index].attribute;
        self.cells.set(index, VgaCell { character: character as u32 as u8, attribute });
        self.x = self.x + 1;
        if self.x == VGA_WIDTH {
            self.x = 0;
            self.y = self.y + 1;
        }
    }

    /// Writes the characters of `string` in order.
    pub fn write_string(&mut self, string: &str)
        requires
            old(self).wf(),
            fits_on_screen(old(self).state(), string@),
            old(self).state().y + string@.len() <= usize::MAX,
        ensures
            final(self).wf(),
            final(self).state() == after_string(old(self).state(), string@),
    {
        let length = string.unicode_len();
        let mut i: usize = 0;
        while i < length
            invariant
                i <= length,
                length == string@.len(),
                self.wf(),
                fits_on_screen(old(self).state(), string@),
                old(self).state().y + string@.len() <= usize::MAX,
                self.state() == after_string(old(self).state(), string@.take(i as int)),
                self.state().y <= old(self).state().y + i,
            decreases length - i,
        {
            let character = string.get_char(i);
            proof {
                assert(string@.take(i as int + 1).drop_last() == string@.take(i as int));
                assert(string@.take(i as int + 1).last() == character);
                let before = after_string(old(self).state(), string@.take(i as int));
                if character != '\n' {
                    assert(before.y * VGA_WIDTH + before.x < VGA_WIDTH * VGA_HEIGHT);
                }
            }
            self.write_character(character);
            i = i + 1;
        }
        assert(string@.take(length as int) == string@);
    }
}

/// Text without a newline that fits in the rest of the cursor's row is
/// written from the cursor to the right: the `i`-th character lands in the
/// `i`-th cell after the cursor, keeping that cell's colour, every other
/// cell stays, and the cursor ends just after the text on the same row.
pub proof fn law_text_written_from_cursor(state: ConsoleState, characters: Seq<char>)
    requires
        state.cells.len() == VGA_WIDTH * VGA_HEIGHT,
        0 <= state.x,
        0 <= state.y < VGA_HEIGHT,
        state.x + characters.len() < VGA_WIDTH,
        forall|i: int| 0 <= i < characters.len() ==> #[trigger] characters[i] != '\n',
    ensures
        ({
            let after = after_string(state, characters);
            let start = state.y * VGA_WIDTH + state.x;
            &&& after.x == state.x + characters.len()
            &&& after.y == state.y
            &&& after.cells.len() == state.cells.len()
            &&& forall|i: int|
                0 <= i < characters.len() ==> #[trigger] after.cells[start + i] == (VgaCell {
                    character: (characters[i] as u32) as u8,
                    attribute: state.cells[start + i].attribute,
                })
            &&& forall|j: int|
                0 <= j < state.cells.len() && !(start <= j < start + characters.len()) ==> #[trigger] after.cells[j]
                    == state.cells[j]
        }),
    decreases characters.len(),
{
    if characters.len() > 0 {
        let front = characters.drop_last();
        assert forall|i: int| 0 <= i < front.len() implies #[trigger] front[i] != '\n' by {
            assert(front[i] == characters[i]);
        }
        law_text_written_from_cursor(state, front);
        let before = after_string(state, front);
        let start = state.y * VGA_WIDTH + state.x;
        let last = characters.len() - 1;
        assert(characters[last] != '\n');
        assert(start + last < VGA_WIDTH * VGA_HEIGHT) by (nonlinear_arith)
            requires
                start == state.y * VGA_WIDTH + state.x,
                0 <= state.y < VGA_HEIGHT,
                state.x + last < VGA_WIDTH,
        ;
        assert(before.y * VGA_WIDTH + before.x == start + last);
        let after = after_string(state, characters);
        assert(after == after_character(before, characters.last()));
        assert forall|i: int| 0 <= i < characters.len() implies #[trigger] after.cells[start + i] == (VgaCell {
            character: (characters[i] as u32) as u8,
            attribute: state.cells[start + i].attribute,
        }) by {
            if i < last {
                assert(front[i] == characters[i]);
                assert(before.cells[start + i] == (VgaCell {
                    character: (front[i] as u32) as u8,
                    attribute: state.cells[start + i].attribute,
                }));
            } else {
                assert(before.cells[start + last] == state.cells[start + last]);
            }
        }
        assert forall|j: int|
            0 <= j < state.cells.len() && !(start <= j < start + characters.len()) implies #[trigger] after.cells[j]
                == state.cells[j] by {
            assert(before.cells[j] == state.cells[j]);
        }
    }
}

} // verus!
