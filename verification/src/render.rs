//! Reading rows out of the emulated grid for the diff cache, and the
//! plain-text projections of the visible screen. The grid reads are
//! tied to the named results of the emulator's accessors, so each
//! projection's contract pins the result down to the cells the grid
//! holds.

use crate::cache::{cells_view, texts_concat, CellColor, CellData, CellV};
use crate::query::joined;
use crate::text::{push_char, trim_back, trim_end_string};
use crate::vt::{cell_bg, cell_fg, cell_bg_of, cell_fg_of, cell_text_of, grid_cell_of, grid_size_of};
use vstd::prelude::*;

verus! {

/// The renderer itself holds no state; the diff cache is a separate
/// object passed into each draw pass.
pub struct TerminalRenderer;

impl TerminalRenderer {
    /// Builds the stateless renderer.
    pub fn new() -> TerminalRenderer {
        TerminalRenderer
    }
}

/// The cell data a grid position yields: the cell's text and colors,
/// or an empty default cell where the grid holds nothing.
pub open spec fn cell_model(oc: Option<vt100::Cell>) -> CellV {
    match oc {
        Some(c) => CellV { text: cell_text_of(c), fg: cell_fg_of(c), bg: cell_bg_of(c) },
        None => CellV { text: Seq::empty(), fg: CellColor::Default, bg: CellColor::Default },
    }
}

/// One visible row of the grid, as cell data.
pub open spec fn row_model(s: vt100::Screen, row: u16, cols: u16) -> Seq<CellV> {
    Seq::new(cols as nat, |j: int| cell_model(grid_cell_of(s, row, j as u16)))
}

/// The whole visible grid, row-major.
pub open spec fn screen_model(s: vt100::Screen) -> Seq<Seq<CellV>> {
    Seq::new(
        grid_size_of(s).0 as nat,
        |i: int| row_model(s, i as u16, grid_size_of(s).1),
    )
}

/// The concatenated text of one row of cells.
pub open spec fn row_text(cells: Seq<CellV>) -> Seq<char> {
    texts_concat(cells, 0, cells.len() as int)
}

/// Rows rendered with a newline after every row.
pub open spec fn rows_lf(rs: Seq<Seq<CellV>>) -> Seq<char>
    decreases rs.len(),
{
    if rs.len() == 0 { Seq::empty() } else {
        rows_lf(rs.drop_last()) + row_text(rs.last()) + seq!['\n']
    }
}

/// Rows rendered with trailing ASCII whitespace trimmed from each row
/// and single newlines between rows.
pub open spec fn rows_trimmed(rs: Seq<Seq<CellV>>) -> Seq<char> {
    joined(rs.map_values(|cells: Seq<CellV>| trim_back(row_text(cells))))
}

/// The models of a matrix of cell rows.
pub open spec fn rows_view(m: Seq<Vec<CellData>>) -> Seq<Seq<CellV>> {
    m.map_values(|v: Vec<CellData>| cells_view(v@))
}

/// Reads one visible row of the grid as cell data for the diff cache:
/// exactly the cells the grid holds at (row, 0..cols), with an empty
/// default cell where the grid holds nothing.
#[verifier::loop_isolation(false)]
pub fn read_row(screen: &vt100::Screen, row: u16, cols: u16) -> (r: Vec<CellData>)
    ensures
        cells_view(r@) == row_model(*screen, row, cols),
{
    let ghost rm = row_model(*screen, row, cols);
    let mut out: Vec<CellData> = Vec::new();
    let mut col: u16 = 0;
    proof {
        assert(cells_view(out@) =~= rm.take(0));
    }
    while col < cols
        invariant
            0 <= col <= cols,
            out@.len() == col as int,
            cells_view(out@) == rm.take(col as int),
        decreases cols - col,
    {
        let ghost before = cells_view(out@);
        match screen.cell(row, col) {
            Some(cell) => {
                let text = String::from_str(cell.contents());
                let fg = cell_fg(cell);
                let bg = cell_bg(cell);
                let data = CellData { text, fg, bg };
                proof {
                    assert(data@ =~= cell_model(grid_cell_of(*screen, row, col)));
                }
                out.push(data);
            },
            None => {
                let data = CellData {
                    text: String::new(),
                    fg: CellColor::Default,
                    bg: CellColor::Default,
                };
                proof {
                    assert(data@ =~= cell_model(grid_cell_of(*screen, row, col)));
                }
                out.push(data);
            },
        }
        proof {
            assert(rm[col as int] == cell_model(grid_cell_of(*screen, row, col)));
            assert(cells_view(out@) =~= before.push(rm[col as int]));
            assert(rm.take(col as int + 1) =~= rm.take(col as int).push(rm[col as int]));
        }
        col += 1;
    }
    proof {
        assert(rm.take(cols as int) =~= rm);
    }
    out
}

/// Reads the whole visible grid as cell data, row-major.
#[verifier::loop_isolation(false)]
pub fn read_screen(screen: &vt100::Screen) -> (r: Vec<Vec<CellData>>)
    ensures
        rows_view(r@) == screen_model(*screen),
{
    let ghost sm = screen_model(*screen);
    let (rows, cols) = screen.size();
    let mut out: Vec<Vec<CellData>> = Vec::new();
    let mut row: u16 = 0;
    proof {
        assert(rows_view(out@) =~= sm.take(0));
    }
    while row < rows
        invariant
            0 <= row <= rows,
            (rows, cols) == grid_size_of(*screen),
            out@.len() == row as int,
            rows_view(out@) == sm.take(row as int),
        decreases rows - row,
    {
        let ghost before = rows_view(out@);
        let cells = read_row(screen, row, cols);
        out.push(cells);
        proof {
            assert(sm[row as int] == row_model(*screen, row, cols));
            assert(rows_view(out@) =~= before.push(sm[row as int]));
            assert(sm.take(row as int + 1) =~= sm.take(row as int).push(sm[row as int]));
        }
        row += 1;
    }
    proof {
        assert(sm.take(rows as int) =~= sm);
    }
    out
}

/// Concatenates the texts of one row of cells.
#[verifier::loop_isolation(false)]
pub fn row_concat(cells: &Vec<CellData>) -> (r: String)
    ensures
        r@ == row_text(cells_view(cells@)),
{
    let ghost cv = cells_view(cells@);
    let mut line = String::new();
    let mut j: usize = 0;
    proof {
        assert(texts_concat(cv, 0, 0) == Seq::<char>::empty());
        assert(line@ =~= texts_concat(cv, 0, 0));
    }
    while j < cells.len()
        invariant
            0 <= j <= cells@.len(),
            cv == cells_view(cells@),
            line@ == texts_concat(cv, 0, j as int),
        decreases cells@.len() - j,
    {
        line.append(cells[j].text.as_str());
        proof {
            crate::cache::lemma_texts_concat_snoc(cv, 0, j as int);
        }
        j += 1;
    }
    line
}

/// Renders rows of cell data with a newline after every row.
#[verifier::loop_isolation(false)]
pub fn rows_to_text_lf(rows: &Vec<Vec<CellData>>) -> (r: String)
    ensures
        r@ == rows_lf(rows_view(rows@)),
{
    let ghost rv = rows_view(rows@);
    let mut out = String::new();
    let mut i: usize = 0;
    proof {
        assert(out@ =~= rows_lf(rv.take(0)));
    }
    while i < rows.len()
        invariant
            0 <= i <= rows@.len(),
            rv == rows_view(rows@),
            out@ == rows_lf(rv.take(i as int)),
        decreases rows@.len() - i,
    {
        let ghost before = out@;
        let line = row_concat(&rows[i]);
        out.append(line.as_str());
        push_char(&mut out, '\n');
        proof {
            assert(rv.take(i as int + 1).drop_last() =~= rv.take(i as int));
            assert(rv.take(i as int + 1).last() == rv[i as int]);
            assert(out@ =~= (before + row_text(rv[i as int])) + seq!['\n']);
        }
        i += 1;
    }
    proof {
        assert(rv.take(rows@.len() as int) =~= rv);
    }
    out
}

/// Renders rows of cell data with trailing ASCII whitespace trimmed
/// from each row and single newlines between rows.
#[verifier::loop_isolation(false)]
pub fn rows_to_text_trimmed(rows: &Vec<Vec<CellData>>) -> (r: String)
    ensures
        r@ == rows_trimmed(rows_view(rows@)),
{
    let ghost rv = rows_view(rows@);
    let ghost tv = rv.map_values(|cells: Seq<CellV>| trim_back(row_text(cells)));
    let mut lines: Vec<String> = Vec::new();
    let mut i: usize = 0;
    proof {
        assert(lines@.map_values(|l: String| l@) =~= tv.take(0));
    }
    while i < rows.len()
        invariant
            0 <= i <= rows@.len(),
            rv == rows_view(rows@),
            tv == rv.map_values(|cells: Seq<CellV>| trim_back(row_text(cells))),
            lines@.len() == i,
            lines@.map_values(|l: String| l@) == tv.take(i as int),
        decreases rows@.len() - i,
    {
        let ghost before = lines@.map_values(|l: String| l@);
        let line = row_concat(&rows[i]);
        let trimmed = trim_end_string(line.as_str());
        proof {
            assert(tv[i as int] == trim_back(row_text(rv[i as int])));
            assert(trimmed@ == tv[i as int]);
        }
        lines.push(trimmed);
        proof {
            assert(lines@.map_values(|l: String| l@) =~= before.push(tv[i as int]));
            assert(tv.take(i as int + 1) =~= tv.take(i as int).push(tv[i as int]));
        }
        i += 1;
    }
    proof {
        assert(tv.take(rows@.len() as int) =~= tv);
    }
    crate::query::join_lines(&lines)
}

/// A plain-text projection of the visible screen with a newline after
/// every row: exactly the grid's cell texts, row-major.
pub fn screen_text_lines(screen: &vt100::Screen) -> (r: String)
    ensures
        r@ == rows_lf(screen_model(*screen)),
{
    let rows = read_screen(screen);
    rows_to_text_lf(&rows)
}

/// A plain-text projection of the visible screen: rows joined by
/// single newlines, each row's trailing ASCII whitespace removed —
/// exactly the grid's cell texts.
pub fn screen_to_text(screen: &vt100::Screen) -> (r: String)
    ensures
        r@ == rows_trimmed(screen_model(*screen)),
{
    let rows = read_screen(screen);
    rows_to_text_trimmed(&rows)
}

} // verus!
