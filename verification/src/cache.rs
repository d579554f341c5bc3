//! The render diff cache: per-row structural hashing and style-run
//! merging. For each visible row a hash over (text, resolved foreground,
//! resolved background) of all cells is memoized together with the
//! merged style runs; a matching hash reuses the cached runs instead of
//! recomputing them. Colors are resolved to thousandths of the unit
//! range, so the renderer converts to its own color type without any
//! rule of this engine leaking there.

use crate::text::push_char;
use vstd::prelude::*;

verus! {

/// A cell color as the emulator reports it.
#[derive(Debug, Clone, Copy, PartialEq, Eq, Structural)]
pub enum CellColor {
    Default,
    Idx(u8),
    Rgb(u8, u8, u8),
}

/// A resolved color, in thousandths of the unit range per channel.
#[derive(Debug, Clone, Copy, PartialEq, Eq, Structural)]
pub struct Rgb {
    pub r: u16,
    pub g: u16,
    pub b: u16,
}

/// The resolved value of one of the sixteen indexed terminal colors,
/// or light gray for an index out of range.
pub open spec fn idx_rgb(i: u8) -> Rgb {
    if i == 0 { Rgb { r: 0, g: 0, b: 0 } }
    else if i == 1 { Rgb { r: 800, g: 0, b: 0 } }
    else if i == 2 { Rgb { r: 0, g: 800, b: 0 } }
    else if i == 3 { Rgb { r: 800, g: 800, b: 0 } }
    else if i == 4 { Rgb { r: 0, g: 0, b: 800 } }
    else if i == 5 { Rgb { r: 800, g: 0, b: 800 } }
    else if i == 6 { Rgb { r: 0, g: 800, b: 800 } }
    else if i == 7 { Rgb { r: 900, g: 900, b: 900 } }
    else if i == 8 { Rgb { r: 500, g: 500, b: 500 } }
    else if i == 9 { Rgb { r: 1000, g: 0, b: 0 } }
    else if i == 10 { Rgb { r: 0, g: 1000, b: 0 } }
    else if i == 11 { Rgb { r: 1000, g: 1000, b: 0 } }
    else if i == 12 { Rgb { r: 0, g: 0, b: 1000 } }
    else if i == 13 { Rgb { r: 1000, g: 0, b: 1000 } }
    else if i == 14 { Rgb { r: 0, g: 1000, b: 1000 } }
    else if i == 15 { Rgb { r: 1000, g: 1000, b: 1000 } }
    else { Rgb { r: 900, g: 900, b: 900 } }
}

/// One RGB channel scaled to thousandths.
pub open spec fn chan(v: u8) -> u16 {
    ((v * 1000) / 255) as u16
}

/// A foreground color resolved to thousandths; the default foreground
/// is light gray.
pub open spec fn fg_rgb(c: CellColor) -> Rgb {
    match c {
        CellColor::Default => Rgb { r: 900, g: 900, b: 900 },
        CellColor::Idx(i) => idx_rgb(i),
        CellColor::Rgb(r, g, b) => Rgb { r: chan(r), g: chan(g), b: chan(b) },
    }
}

/// The fixed theme color that a default background resolves to — not
/// transparency, so full-row fills have no gaps.
pub open spec fn default_bg() -> Rgb {
    Rgb { r: 150, g: 150, b: 150 }
}

/// A background color resolved to thousandths; the default background
/// resolves to the fixed theme color.
pub open spec fn bg_rgb(c: CellColor) -> Rgb {
    match c {
        CellColor::Default => default_bg(),
        _ => fg_rgb(c),
    }
}

fn chan_exec(v: u8) -> (r: u16)
    ensures
        r == chan(v),
{
    (((v as u32) * 1000) / 255) as u16
}

/// Resolves a foreground color.
pub fn resolve_fg(c: CellColor) -> (r: Rgb)
    ensures
        r == fg_rgb(c),
{
    match c {
        CellColor::Default => Rgb { r: 900, g: 900, b: 900 },
        CellColor::Idx(i) => {
            if i == 0 { Rgb { r: 0, g: 0, b: 0 } }
            else if i == 1 { Rgb { r: 800, g: 0, b: 0 } }
            else if i == 2 { Rgb { r: 0, g: 800, b: 0 } }
            else if i == 3 { Rgb { r: 800, g: 800, b: 0 } }
            else if i == 4 { Rgb { r: 0, g: 0, b: 800 } }
            else if i == 5 { Rgb { r: 800, g: 0, b: 800 } }
            else if i == 6 { Rgb { r: 0, g: 800, b: 800 } }
            else if i == 7 { Rgb { r: 900, g: 900, b: 900 } }
            else if i == 8 { Rgb { r: 500, g: 500, b: 500 } }
            else if i == 9 { Rgb { r: 1000, g: 0, b: 0 } }
            else if i == 10 { Rgb { r: 0, g: 1000, b: 0 } }
            else if i == 11 { Rgb { r: 1000, g: 1000, b: 0 } }
            else if i == 12 { Rgb { r: 0, g: 0, b: 1000 } }
            else if i == 13 { Rgb { r: 1000, g: 0, b: 1000 } }
            else if i == 14 { Rgb { r: 0, g: 1000, b: 1000 } }
            else if i == 15 { Rgb { r: 1000, g: 1000, b: 1000 } }
            else { Rgb { r: 900, g: 900, b: 900 } }
        },
        CellColor::Rgb(r, g, b) => Rgb { r: chan_exec(r), g: chan_exec(g), b: chan_exec(b) },
    }
}

/// Resolves a background color.
pub fn resolve_bg(c: CellColor) -> (r: Rgb)
    ensures
        r == bg_rgb(c),
{
    match c {
        CellColor::Default => Rgb { r: 150, g: 150, b: 150 },
        _ => resolve_fg(c),
    }
}

/// One cell as the diff cache sees it: its text and its colors as the
/// emulator reported them.
#[derive(Debug, Clone)]
pub struct CellData {
    pub text: String,
    pub fg: CellColor,
    pub bg: CellColor,
}

/// Specification-level model of a cell.
#[verifier::ext_equal]
pub ghost struct CellV {
    pub text: Seq<char>,
    pub fg: CellColor,
    pub bg: CellColor,
}

impl View for CellData {
    type V = CellV;

    open spec fn view(&self) -> CellV {
        CellV { text: self.text@, fg: self.fg, bg: self.bg }
    }
}

/// The models of a row of cells.
pub open spec fn cells_view(s: Seq<CellData>) -> Seq<CellV> {
    s.map_values(|c: CellData| c@)
}

/// A maximal horizontal span of cells sharing identical resolved
/// colors, used to batch rendering.
#[derive(Debug, Clone)]
pub struct StyleRun {
    pub text: String,
    pub fg: Rgb,
    pub bg: Rgb,
    pub start_col: usize,
    pub width_cols: usize,
}

/// Specification-level model of a style run.
#[verifier::ext_equal]
pub ghost struct RunV {
    pub text: Seq<char>,
    pub fg: Rgb,
    pub bg: Rgb,
    pub start_col: int,
    pub width_cols: int,
}

impl View for StyleRun {
    type V = RunV;

    open spec fn view(&self) -> RunV {
        RunV {
            text: self.text@,
            fg: self.fg,
            bg: self.bg,
            start_col: self.start_col as int,
            width_cols: self.width_cols as int,
        }
    }
}

/// The models of a sequence of style runs.
pub open spec fn runs_view(s: Seq<StyleRun>) -> Seq<RunV> {
    s.map_values(|r: StyleRun| r@)
}

/// The first column at or after `j` whose resolved colors differ from
/// the run's, or the row's end.
pub open spec fn run_end(cells: Seq<CellV>, fg: Rgb, bg: Rgb, j: int) -> int
    decreases cells.len() - j,
{
    if j < 0 || j >= cells.len() {
        cells.len() as int
    } else if fg_rgb(cells[j].fg) != fg || bg_rgb(cells[j].bg) != bg {
        j
    } else {
        run_end(cells, fg, bg, j + 1)
    }
}

proof fn lemma_run_end(cells: Seq<CellV>, fg: Rgb, bg: Rgb, j: int)
    requires
        0 <= j <= cells.len(),
    ensures
        j <= run_end(cells, fg, bg, j) <= cells.len(),
        forall|k: int|
            j <= k < run_end(cells, fg, bg, j) ==> fg_rgb(cells[k].fg) == fg && bg_rgb(cells[k].bg)
                == bg,
        run_end(cells, fg, bg, j) < cells.len() ==> (fg_rgb(
            cells[run_end(cells, fg, bg, j)].fg,
        ) != fg || bg_rgb(cells[run_end(cells, fg, bg, j)].bg) != bg),
    decreases cells.len() - j,
{
    if j < cells.len() && fg_rgb(cells[j].fg) == fg && bg_rgb(cells[j].bg) == bg {
        lemma_run_end(cells, fg, bg, j + 1);
    }
}

/// The concatenated texts of cells `[i, j)`.
pub open spec fn texts_concat(cells: Seq<CellV>, i: int, j: int) -> Seq<char>
    decreases j - i,
{
    if i >= j { Seq::empty() } else { cells[i].text + texts_concat(cells, i + 1, j) }
}

/// The merged style runs of the row from column `i` on: scan left to
/// right, extend the current run while the resolved colors match, and
/// close it on any mismatch.
pub open spec fn runs_from(cells: Seq<CellV>, i: int) -> Seq<RunV>
    decreases cells.len() - i,
    when 0 <= i
    via runs_from_dec
{
    if i >= cells.len() {
        Seq::empty()
    } else {
        let fg = fg_rgb(cells[i].fg);
        let bg = bg_rgb(cells[i].bg);
        let e = run_end(cells, fg, bg, i + 1);
        seq![
            RunV { text: texts_concat(cells, i, e), fg, bg, start_col: i, width_cols: e - i },
        ] + runs_from(cells, e)
    }
}

#[via_fn]
proof fn runs_from_dec(cells: Seq<CellV>, i: int) {
    if 0 <= i && i < cells.len() {
        lemma_run_end(cells, fg_rgb(cells[i].fg), bg_rgb(cells[i].bg), i + 1);
    }
}

/// The merged style runs of a whole row.
pub open spec fn runs_of(cells: Seq<CellV>) -> Seq<RunV> {
    runs_from(cells, 0)
}

/// One mixing step of the row hash.
pub open spec fn mix(h: u64, x: u64) -> u64 {
    (((h * 131) + x) % 0x1_0000_0000_0000_0000) as u64
}

fn mix_exec(h: u64, x: u64) -> (r: u64)
    ensures
        r == mix(h, x),
{
    let wide: u128 = (h as u128) * 131 + (x as u128);
    (wide % 0x1_0000_0000_0000_0000u128) as u64
}

/// The hash after folding in a text's characters.
pub open spec fn hash_text(h: u64, t: Seq<char>) -> u64
    decreases t.len(),
{
    if t.len() == 0 { h } else { mix(hash_text(h, t.drop_last()), t.last() as u64) }
}

/// The hash after folding in one cell: its text, a separator beyond
/// any character, and its resolved colors.
pub open spec fn hash_cell(h: u64, c: CellV) -> u64 {
    let h1 = mix(hash_text(h, c.text), 0x110000);
    let fg = fg_rgb(c.fg);
    let bg = bg_rgb(c.bg);
    mix(mix(mix(mix(mix(mix(h1, fg.r as u64), fg.g as u64), fg.b as u64), bg.r as u64), bg.g as u64), bg.b as u64)
}

/// The hash after folding in the cells from `i` on.
pub open spec fn hash_cells_from(h: u64, cells: Seq<CellV>, i: int) -> u64
    decreases cells.len() - i,
{
    if i < 0 || i >= cells.len() { h } else { hash_cells_from(hash_cell(h, cells[i]), cells, i + 1) }
}

/// The structural hash of a row over (text, resolved foreground,
/// resolved background) of every cell.
pub open spec fn row_hash(cells: Seq<CellV>) -> u64 {
    hash_cells_from(14695981039346656037, cells, 0)
}

fn hash_text_exec(h: u64, t: &str) -> (r: u64)
    ensures
        r == hash_text(h, t@),
{
    let n = t.unicode_len();
    let mut acc = h;
    let mut i: usize = 0;
    while i < n
        invariant
            0 <= i <= n,
            n == t@.len(),
            acc == hash_text(h, t@.take(i as int)),
        decreases n - i,
    {
        let c = t.get_char(i);
        proof {
            assert(t@.take(i + 1).drop_last() =~= t@.take(i as int));
            assert(t@.take(i + 1).last() == t@[i as int]);
        }
        acc = mix_exec(acc, c as u64);
        i += 1;
    }
    proof {
        assert(t@.take(n as int) =~= t@);
    }
    acc
}

fn hash_cell_exec(h: u64, c: &CellData) -> (r: u64)
    ensures
        r == hash_cell(h, c@),
{
    let h1 = mix_exec(hash_text_exec(h, self_str(&c.text)), 0x110000);
    let fg = resolve_fg(c.fg);
    let bg = resolve_bg(c.bg);
    mix_exec(
        mix_exec(
            mix_exec(mix_exec(mix_exec(mix_exec(h1, fg.r as u64), fg.g as u64), fg.b as u64), bg.r as u64),
            bg.g as u64,
        ),
        bg.b as u64,
    )
}

fn self_str(s: &String) -> (r: &str)
    ensures
        r@ == s@,
{
    s.as_str()
}

/// Computes the structural hash of a row.
#[verifier::loop_isolation(false)]
pub fn compute_row_hash(cells: &Vec<CellData>) -> (r: u64)
    ensures
        r == row_hash(cells_view(cells@)),
{
    let ghost cv = cells_view(cells@);
    let mut acc: u64 = 14695981039346656037;
    let mut i: usize = 0;
    while i < cells.len()
        invariant
            0 <= i <= cells@.len(),
            hash_cells_from(acc, cv, i as int) == row_hash(cv),
        decreases cells@.len() - i,
    {
        acc = hash_cell_exec(acc, &cells[i]);
        i += 1;
    }
    acc
}


fn colors_match(cells: &Vec<CellData>, col: usize, fg: Rgb, bg: Rgb) -> (r: bool)
    requires
        col < cells@.len(),
    ensures
        r == (fg_rgb(cells@[col as int]@.fg) == fg && bg_rgb(cells@[col as int]@.bg) == bg),
{
    let cfg = resolve_fg(cells[col].fg);
    let cbg = resolve_bg(cells[col].bg);
    cfg.r == fg.r && cfg.g == fg.g && cfg.b == fg.b && cbg.r == bg.r && cbg.g == bg.g && cbg.b
        == bg.b
}

/// Computes the merged style runs of a row.
#[verifier::rlimit(50)]
#[verifier::loop_isolation(false)]
pub fn compute_runs(cells: &Vec<CellData>) -> (r: Vec<StyleRun>)
    ensures
        runs_view(r@) == runs_of(cells_view(cells@)),
{
    let ghost cv = cells_view(cells@);
    let mut runs: Vec<StyleRun> = Vec::new();
    let mut col: usize = 0;
    let n = cells.len();
    proof {
        assert(runs_view(runs@) =~= Seq::<RunV>::empty());
        assert(runs_of(cv) =~= runs_view(runs@) + runs_from(cv, 0));
    }
    while col < n
        invariant
            0 <= col <= n,
            n == cells@.len(),
            runs_of(cv) == runs_view(runs@) + runs_from(cv, col as int),
        decreases n - col,
    {
        let ghost acc = runs_view(runs@);
        let start = col;
        let fg = resolve_fg(cells[col].fg);
        let bg = resolve_bg(cells[col].bg);
        let mut text = cells[col].text.clone();
        col += 1;
        proof {
            lemma_run_end(cv, fg, bg, start + 1);
            assert(cv[start as int].text + texts_concat(cv, start + 1, start + 1) =~= cv[start as int].text);
        }
        while col < n && colors_match(cells, col, fg, bg)
            invariant
                start < col <= n,
                fg == fg_rgb(cv[start as int].fg),
                bg == bg_rgb(cv[start as int].bg),
                forall|k: int|
                    start < k < col ==> fg_rgb(cv[k].fg) == fg && bg_rgb(cv[k].bg) == bg,
                text@ == texts_concat(cv, start as int, col as int),
            decreases n - col,
        {
            let ghost t0 = text@;
            text.append(self_str(&cells[col].text));
            proof {
                lemma_texts_concat_snoc(cv, start as int, col as int);
            }
            col += 1;
        }
        proof {
            let e = run_end(cv, fg, bg, start + 1);
            lemma_run_end(cv, fg, bg, start + 1);
            if col < n {
                assert(e == col);
            } else {
                assert(e == n);
            }
        }
        let run = StyleRun { text, fg, bg, start_col: start, width_cols: col - start };
        runs.push(run);
        proof {
            assert(runs_view(runs@) =~= acc + seq![run@]);
            assert(run@ =~= runs_from(cv, start as int)[0]);
            assert(runs_from(cv, start as int) == seq![runs_from(cv, start as int)[0]]
                + runs_from(cv, col as int));
            assert(acc + (seq![run@] + runs_from(cv, col as int)) =~= (acc + seq![run@])
                + runs_from(cv, col as int));
        }
    }
    proof {
        assert(runs_from(cv, n as int) =~= Seq::<RunV>::empty());
        assert(runs_view(runs@) + runs_from(cv, n as int) =~= runs_view(runs@));
    }
    runs
}

pub(crate) proof fn lemma_texts_concat_snoc(cells: Seq<CellV>, i: int, j: int)
    requires
        0 <= i <= j < cells.len(),
    ensures
        texts_concat(cells, i, j + 1) == texts_concat(cells, i, j) + cells[j].text,
    decreases j - i,
{
    if i == j {
        assert(texts_concat(cells, i, i) =~= Seq::<char>::empty());
        assert(texts_concat(cells, j + 1, j + 1) =~= Seq::<char>::empty());
        assert(cells[j].text + Seq::<char>::empty() =~= cells[j].text);
        assert(Seq::<char>::empty() + cells[j].text =~= cells[j].text);
    } else {
        lemma_texts_concat_snoc(cells, i + 1, j);
        assert(cells[i].text + (texts_concat(cells, i + 1, j) + cells[j].text) =~= (cells[i].text
            + texts_concat(cells, i + 1, j)) + cells[j].text);
    }
}

/// One memoized row: its key (tab, pane, row), the stored structural
/// hash, the merged style runs, and — for specification only — the
/// cells the entry was computed from.
#[verifier::ext_equal]
pub struct RowCacheEntry {
    pub tab_id: usize,
    pub pane_id: usize,
    pub row: u16,
    pub hash: u64,
    pub runs: Vec<StyleRun>,
    pub cells: Ghost<Seq<CellV>>,
}

/// Whether the entry carries the given key.
pub open spec fn entry_keyed(e: RowCacheEntry, tab: int, pane: int, row: int) -> bool {
    e.tab_id == tab && e.pane_id == pane && e.row == row
}

/// The index of the entry with the given key, if any.
pub open spec fn find_key(s: Seq<RowCacheEntry>, tab: int, pane: int, row: int) -> Option<int>
    decreases s.len(),
{
    if s.len() == 0 {
        None
    } else if entry_keyed(s[0], tab, pane, row) {
        Some(0)
    } else {
        match find_key(s.drop_first(), tab, pane, row) {
            Some(i) => Some(i + 1),
            None => None,
        }
    }
}

proof fn lemma_find_key(s: Seq<RowCacheEntry>, tab: int, pane: int, row: int)
    ensures
        match find_key(s, tab, pane, row) {
            Some(i) => 0 <= i < s.len() && entry_keyed(s[i], tab, pane, row) && forall|k: int|
                0 <= k < i ==> !entry_keyed(#[trigger] s[k], tab, pane, row),
            None => forall|k: int| 0 <= k < s.len() ==> !entry_keyed(#[trigger] s[k], tab, pane, row),
        },
    decreases s.len(),
{
    if s.len() > 0 && !entry_keyed(s[0], tab, pane, row) {
        let d = s.drop_first();
        lemma_find_key(d, tab, pane, row);
        match find_key(d, tab, pane, row) {
            Some(i) => {
                assert(d[i] == s[i + 1]);
                assert forall|k: int| 0 <= k < i + 1 implies !entry_keyed(
                    #[trigger] s[k],
                    tab,
                    pane,
                    row,
                ) by {
                    if k > 0 {
                        assert(s[k] == d[k - 1]);
                    }
                }
            },
            None => {
                assert forall|k: int| 0 <= k < s.len() implies !entry_keyed(
                    #[trigger] s[k],
                    tab,
                    pane,
                    row,
                ) by {
                    if k > 0 {
                        assert(s[k] == d[k - 1]);
                    }
                }
            },
        }
    }
}

/// The explicit cache object owned by the renderer, passed by
/// reference into each draw pass; never a global.
pub struct RowCache {
    pub entries: Vec<RowCacheEntry>,
}

impl RowCache {
    /// Every entry's hash and runs were computed from its recorded
    /// cells.
    pub open spec fn wf(&self) -> bool {
        forall|i: int|
            0 <= i < self.entries@.len() ==> (#[trigger] self.entries@[i]).hash == row_hash(
                self.entries@[i].cells@,
            ) && runs_view(self.entries@[i].runs@) == runs_of(self.entries@[i].cells@)
    }

    /// An empty cache.
    pub fn new() -> (r: RowCache)
        ensures
            r.wf(),
            r.entries@.len() == 0,
    {
        RowCache { entries: Vec::new() }
    }

    /// Drops every entry; the caller must do this on resize, when row
    /// indices are no longer comparable.
    pub fn invalidate_all(&mut self)
        ensures
            final(self).wf(),
            final(self).entries@.len() == 0,
    {
        self.entries.clear();
    }

    /// Drops the entries of one pane; the caller must do this when the
    /// pane closes, else the cache grows without bound.
    #[verifier::loop_isolation(false)]
    pub fn purge_pane(&mut self, tab_id: usize, pane_id: usize)
        requires
            old(self).wf(),
        ensures
            final(self).wf(),
            final(self).entries@ == old(self).entries@.filter(
                |e: RowCacheEntry| !(e.tab_id == tab_id && e.pane_id == pane_id),
            ),
    {
        let ghost pred = |e: RowCacheEntry| !(e.tab_id == tab_id && e.pane_id == pane_id);
        let ghost orig = old(self).entries@;
        let mut pool: Vec<RowCacheEntry> = Vec::new();
        core::mem::swap(&mut self.entries, &mut pool);
        let mut i: usize = 0;
        let n = pool.len();
        proof {
            assert(orig.take(0) =~= Seq::<RowCacheEntry>::empty());
            Seq::<RowCacheEntry>::empty().lemma_all_neg_filter_empty(pred);
            assert(pool@ =~= orig.skip(0));
        }
        while i < n
            invariant
                0 <= i <= n,
                n == orig.len(),
                pool@ == orig.skip(i as int),
                self.entries@ == orig.take(i as int).filter(pred),
                forall|k: int|
                    0 <= k < self.entries@.len() ==> (#[trigger] self.entries@[k]).hash == row_hash(
                        self.entries@[k].cells@,
                    ) && runs_view(self.entries@[k].runs@) == runs_of(self.entries@[k].cells@),
            decreases n - i,
        {
            let ghost t = orig.take(i as int);
            let ghost cur = orig[i as int];
            proof {
                assert(orig.take(i + 1) =~= t.push(cur));
                t.lemma_filter_push(cur, pred);
                assert(pool@[0] == cur);
            }
            let e = pool.remove(0);
            proof {
                assert(pool@ =~= orig.skip(i + 1));
            }
            let keep = !(e.tab_id == tab_id && e.pane_id == pane_id);
            if keep {
                self.entries.push(e);
            }
            i += 1;
        }
        proof {
            assert(orig.take(n as int) =~= orig);
        }
    }

    /// Looks the row up by key and hash; on a hash match the cached
    /// runs are reused untouched, otherwise the runs are recomputed
    /// and the entry overwritten or inserted. The second result says
    /// whether the cached runs were reused.
    #[verifier::rlimit(60)]
    #[verifier::loop_isolation(false)]
    pub fn lookup(&mut self, tab_id: usize, pane_id: usize, row: u16, cells: &Vec<CellData>) -> (r:
        (Vec<StyleRun>, bool))
        requires
            old(self).wf(),
        ensures
            final(self).wf(),
            ({
                let cv = cells_view(cells@);
                let found = find_key(old(self).entries@, tab_id as int, pane_id as int, row as int);
                if r.1 {
                    // reuse: an entry with this key existed and its hash matched
                    &&& found matches Some(i) && old(self).entries@[i].hash == row_hash(cv)
                    &&& runs_view(r.0@) == runs_of(old(self).entries@[found.unwrap()].cells@)
                    &&& final(self).entries@ == old(self).entries@
                    &&& (old(self).entries@[found.unwrap()].cells@ == cv ==> runs_view(r.0@)
                        == runs_of(cv))
                } else {
                    // fresh computation, memoized under this key
                    &&& runs_view(r.0@) == runs_of(cv)
                    &&& final(self).entries@.len() == (if found is Some {
                        old(self).entries@.len() as int
                    } else {
                        old(self).entries@.len() as int + 1
                    })
                    &&& ({
                        let at = if found is Some {
                            found.unwrap()
                        } else {
                            old(self).entries@.len() as int
                        };
                        &&& entry_keyed(final(self).entries@[at], tab_id as int, pane_id as int,
                            row as int)
                        &&& final(self).entries@[at].hash == row_hash(cv)
                        &&& final(self).entries@[at].cells@ == cv
                        &&& runs_view(final(self).entries@[at].runs@) == runs_of(cv)
                        &&& forall|k: int|
                            0 <= k < old(self).entries@.len() && k != at
                                ==> final(self).entries@[k] == old(self).entries@[k]
                    })
                }
            }),
    {
        let ghost cv = cells_view(cells@);
        let hash = compute_row_hash(cells);
        proof {
            lemma_find_key(self.entries@, tab_id as int, pane_id as int, row as int);
        }
        let mut i: usize = 0;
        let n = self.entries.len();
        while i < n
            invariant
                0 <= i <= n,
                n == self.entries@.len(),
                self.entries@ == old(self).entries@,
                forall|k: int|
                    0 <= k < i ==> !entry_keyed(
                        #[trigger] self.entries@[k],
                        tab_id as int,
                        pane_id as int,
                        row as int,
                    ),
            decreases n - i,
        {
            if self.entries[i].tab_id == tab_id && self.entries[i].pane_id == pane_id
                && self.entries[i].row == row {
                proof {
                    let found = find_key(self.entries@, tab_id as int, pane_id as int, row as int);
                    assert(found == Some(i as int));
                }
                if self.entries[i].hash == hash {
                    let runs = clone_runs(&self.entries[i].runs);
                    return (runs, true);
                }
                let fresh = compute_runs(cells);
                let out = clone_runs(&fresh);
                let e = RowCacheEntry {
                    tab_id,
                    pane_id,
                    row,
                    hash,
                    runs: fresh,
                    cells: Ghost(cv),
                };
                set_entry(&mut self.entries, i, e);
                return (out, false);
            }
            i += 1;
        }
        proof {
            let found = find_key(self.entries@, tab_id as int, pane_id as int, row as int);
            assert(found is None);
        }
        let fresh = compute_runs(cells);
        let out = clone_runs(&fresh);
        let e = RowCacheEntry { tab_id, pane_id, row, hash, runs: fresh, cells: Ghost(cv) };
        self.entries.push(e);
        (out, false)
    }
}

/// Law: a row unchanged between two render passes is served from the
/// cache without recomputing its style runs, and the served runs are
/// exactly what a forced recomputation of that row would yield. In a
/// well-formed cache, an entry recorded for cells `cv` keeps a hash
/// that matches `cv` — so `lookup` takes the reuse path — and its
/// stored runs equal `runs_of(cv)`.
pub proof fn lemma_unchanged_row_hit(c: RowCache, tab: int, pane: int, row: int, cv: Seq<CellV>)
    requires
        c.wf(),
        find_key(c.entries@, tab, pane, row) matches Some(i) && c.entries@[i].cells@ == cv,
    ensures
        ({
            let i = find_key(c.entries@, tab, pane, row).unwrap();
            &&& c.entries@[i].hash == row_hash(cv)
            &&& runs_view(c.entries@[i].runs@) == runs_of(cv)
        }),
{
    lemma_find_key(c.entries@, tab, pane, row);
}

/// Copies one style run.
fn clone_run(r: &StyleRun) -> (c: StyleRun)
    ensures
        c == *r,
{
    StyleRun {
        text: r.text.clone(),
        fg: r.fg,
        bg: r.bg,
        start_col: r.start_col,
        width_cols: r.width_cols,
    }
}

/// Copies a row of style runs.
#[verifier::loop_isolation(false)]
fn clone_runs(rs: &Vec<StyleRun>) -> (c: Vec<StyleRun>)
    ensures
        c@ == rs@,
{
    let mut out: Vec<StyleRun> = Vec::new();
    let mut i: usize = 0;
    while i < rs.len()
        invariant
            0 <= i <= rs@.len(),
            out@ =~= rs@.take(i as int),
        decreases rs@.len() - i,
    {
        out.push(clone_run(&rs[i]));
        proof {
            assert(out@ =~= rs@.take(i + 1));
        }
        i += 1;
    }
    proof {
        assert(out@ =~= rs@);
    }
    out
}

/// Replaces the entry at `i`.
fn set_entry(v: &mut Vec<RowCacheEntry>, i: usize, e: RowCacheEntry)
    requires
        i < old(v)@.len(),
    ensures
        final(v)@ == old(v)@.update(i as int, e),
{
    let ghost v0 = v@;
    v.remove(i);
    proof {
        assert(v@ =~= v0.remove(i as int));
    }
    v.insert(i, e);
    proof {
        assert(v@ =~= v0.update(i as int, e));
    }
}

} // verus!
