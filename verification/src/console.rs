//! The kernel console, on the VGA text screen.
use vstd::prelude::*;
use crate::vga::{VgaConsole, VgaCell, ConsoleState, after_character, after_string, fits_on_screen, VGA_WIDTH, VGA_HEIGHT, DEFAULT_ATTRIBUTE};

verus! {

/// Blanks the screen and moves the cursor to the top left.
pub fn clear(console: &mut VgaConsole)
    requires
        old(console).wf(),
    ensures
        final(console).wf(),
        final(console).state().cells == Seq::new(
            (VGA_WIDTH * VGA_HEIGHT) as nat,
            |i: int| VgaCell { character: 0x20, attribute: DEFAULT_ATTRIBUTE },
        ),
        final(console).state().x == 0 && final(console).state().y == 0,
{
    console.clear();
}

/// Writes `character` at the cursor.
pub fn write_character(console: &mut VgaConsole, character: char)
    requires
        old(console).wf(),
        character == '\n' ==> old(console).state().y < usize::MAX,
        character != '\n' ==> old(console).state().y * VGA_WIDTH + old(console).state().x < VGA_WIDTH * VGA_HEIGHT,
    ensures
        final(console).wf(),
        final(console).state() == after_character(old(console).state(), character),
{
    console.write_character(character);
}

/// Writes `string` at the cursor.
pub fn write_string(console: &mut VgaConsole, string: &str)
    requires
        old(console).wf(),
        fits_on_screen(old(console).state(), string@),
        old(console).state().y + string@.len() <= usize::MAX,
    ensures
        final(console).wf(),
        final(console).state() == after_string(old(console).state(), string@),
{
    console.write_string(string);
}

} // verus!
