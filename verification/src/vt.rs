//! Trusted layer over the terminal-emulation component: the
//! screen-buffer emulator that the parser forwards every byte to, and
//! the cell accessors that the renderer reads. What a cell holds is the
//! emulator's concern, so the reads are tied to named results: each is
//! a pure function of the grid value alone, and the verified
//! projections above speak of those names exactly.
//!
//! The emulator's grid arithmetic does not take degenerate geometries:
//! its grid keeps `rows - 1` as a scroll bound and the print path
//! subtracts a character width (up to two) from `cols`, so every
//! construction and resize here requires at least one row and two
//! columns.

use crate::cache::CellColor;
use vstd::prelude::*;

verus! {

/// Declares vt100::Screen, the emulated cell grid.
#[verifier::external_type_specification]
#[verifier::external_body]
pub struct ExVtScreen(vt100::Screen);

/// Declares vt100::Cell, one cell of the grid.
#[verifier::external_type_specification]
#[verifier::external_body]
pub struct ExVtCell(vt100::Cell);

/// Holds the emulator itself. vt100::Parser is generic over a
/// callbacks parameter, which this engine leaves at its default; the
/// declaration of so-parameterized outside types is refused here, so
/// the value lives in a hidden struct instead.
#[verifier::external_body]
pub(crate) struct Emulator {
    inner: vt100::Parser,
}

/// The size of a grid, as (rows, cols); a pure function of the grid
/// value.
pub uninterp spec fn grid_size_of(s: vt100::Screen) -> (u16, u16);

/// The cell a grid holds at (row, col), if those coordinates are on
/// the grid; a pure function of the grid value.
pub uninterp spec fn grid_cell_of(s: vt100::Screen, row: u16, col: u16) -> Option<vt100::Cell>;

/// The text of a cell; a pure function of the cell value.
pub uninterp spec fn cell_text_of(c: vt100::Cell) -> Seq<char>;

/// A cell's foreground color, carried over variant-for-variant into
/// the engine's own color type; a pure function of the cell value.
pub uninterp spec fn cell_fg_of(c: vt100::Cell) -> CellColor;

/// A cell's background color, carried over variant-for-variant; a
/// pure function of the cell value.
pub uninterp spec fn cell_bg_of(c: vt100::Cell) -> CellColor;

/// Relies on vt100::Parser::new: builds an emulator of the given size
/// and scrollback. The grid cannot take zero rows, and its print path
/// subtracts a character width of up to two from the columns.
#[verifier::external_body]
pub(crate) fn emu_new(rows: u16, cols: u16, scrollback_len: usize) -> Emulator
    requires
        rows >= 1,
        cols >= 2,
{
    Emulator { inner: vt100::Parser::new(rows, cols, scrollback_len) }
}

/// Relies on vt100::Parser::process: feeds bytes to the emulator,
/// updating the in-memory terminal state.
#[verifier::external_body]
pub(crate) fn emu_process(e: &mut Emulator, bytes: &[u8]) {
    e.inner.process(bytes);
}

/// Relies on vt100::Parser::screen: hands out the current grid.
#[verifier::external_body]
pub(crate) fn emu_screen(e: &Emulator) -> &vt100::Screen {
    e.inner.screen()
}

/// Relies on vt100::Parser::screen_mut: hands out the grid mutably.
#[verifier::external_body]
pub(crate) fn emu_screen_mut(e: &mut Emulator) -> &mut vt100::Screen {
    e.inner.screen_mut()
}

/// Relies on vt100::Screen::set_size: resizes the grid. The grid keeps
/// `rows - 1` as a scroll bound, so zero rows are out; the print path
/// needs two columns.
pub assume_specification[ vt100::Screen::set_size ](s: &mut vt100::Screen, rows: u16, cols: u16)
    requires
        rows >= 1,
        cols >= 2,
;

/// Relies on vt100::Screen::size: returns the grid size as
/// (rows, cols), a pure accessor of the grid value.
pub assume_specification[ vt100::Screen::size ](s: &vt100::Screen) -> (r: (u16, u16))
    ensures
        r == grid_size_of(*s),
;

/// Relies on vt100::Screen::cell: returns the cell at (row, col) if
/// those coordinates are on the grid, a pure accessor of the grid
/// value.
pub assume_specification[ vt100::Screen::cell ](s: &vt100::Screen, row: u16, col: u16) -> (r:
    Option<&vt100::Cell>)
    ensures
        match r {
            Some(c) => grid_cell_of(*s, row, col) == Some(*c),
            None => grid_cell_of(*s, row, col) is None,
        },
;

/// Relies on vt100::Cell::contents: the text of the cell, a pure
/// accessor of the cell value.
pub assume_specification[ vt100::Cell::contents ](c: &vt100::Cell) -> (r: &str)
    ensures
        r@ == cell_text_of(*c),
;

/// Relies on vt100::Cell::fgcolor: the cell's foreground color, a pure
/// accessor of the cell value; its variants Default, Idx and Rgb are
/// carried over one arm each, moving fields only.
#[verifier::external_body]
pub(crate) fn cell_fg(c: &vt100::Cell) -> (r: CellColor)
    ensures
        r == cell_fg_of(*c),
{
    match c.fgcolor() {
        vt100::Color::Default => CellColor::Default,
        vt100::Color::Idx(i) => CellColor::Idx(i),
        vt100::Color::Rgb(red, green, blue) => CellColor::Rgb(red, green, blue),
    }
}

/// Relies on vt100::Cell::bgcolor: the cell's background color, a pure
/// accessor of the cell value, carried over as the foreground is.
#[verifier::external_body]
pub(crate) fn cell_bg(c: &vt100::Cell) -> (r: CellColor)
    ensures
        r == cell_bg_of(*c),
{
    match c.bgcolor() {
        vt100::Color::Default => CellColor::Default,
        vt100::Color::Idx(i) => CellColor::Idx(i),
        vt100::Color::Rgb(red, green, blue) => CellColor::Rgb(red, green, blue),
    }
}

} // verus!
