//! Per-character layout: where each character of a block of runs is placed.
//!
//! Lengths are whole numbers of a layout unit that the caller chooses; with hundredths
//! of a pixel, positions keep two decimals. A character is as wide as its size.

use crate::alignment::{HDir, VDir};
use crate::style::{opt_view, TextElement};
use crate::text::{lemma_char_range, to_chars};
use vstd::prelude::*;

verus! {

/// The most units (characters and line breaks) that `layout` takes in one block. Within
/// it every position fits its type.
pub const MAX_UNITS: usize = 0x1000_0000;

/// One unit of a run's text: a character, or the line break that the two characters
/// backslash and `n` stand for.
#[derive(Debug, Clone, Copy, PartialEq, Eq, Structural)]
pub enum Unit {
    Glyph(char),
    Break,
}

/// A unit and the run it came from.
#[derive(Debug, Clone, Copy, PartialEq, Eq, Structural)]
pub struct Cell {
    pub unit: Unit,
    /// The index of the run that holds the unit.
    pub run: usize,
}

/// A run together with its size in layout units.
#[derive(Debug, Clone)]
pub struct MeasuredRun {
    pub element: TextElement,
    /// The element's size in layout units; `None` where the element sets no size.
    /// Layout reads the size here, not the element's literal.
    pub size: Option<i32>,
}

/// What layout reads of a run.
pub struct MeasuredRunView {
    pub text: Seq<char>,
    pub size: Option<i32>,
    pub font: Option<Seq<char>>,
    pub color: Option<Seq<char>>,
    pub is_bold: Option<bool>,
    pub is_italic: Option<bool>,
}

impl View for MeasuredRun {
    type V = MeasuredRunView;

    open spec fn view(&self) -> MeasuredRunView {
        MeasuredRunView {
            text: self.element.text@,
            size: self.size,
            font: opt_view(self.element.font),
            color: opt_view(self.element.color),
            is_bold: self.element.is_bold,
            is_italic: self.element.is_italic,
        }
    }
}

/// What a list of measured runs stands for.
pub open spec fn measured(runs: Seq<MeasuredRun>) -> Seq<MeasuredRunView> {
    runs.map_values(|r: MeasuredRun| r@)
}

/// The block's own values: its lengths, its anchor point and alignment, and the style
/// that a run falls back to where it sets none.
#[derive(Debug, Clone)]
pub struct BlockParams {
    pub base_size: i32,
    /// Added to every character's advance.
    pub kerning: i32,
    pub line_spacing: i32,
    pub anchor_x: i32,
    pub anchor_y: i32,
    pub hdir: HDir,
    pub vdir: VDir,
    pub font: String,
    pub color: String,
    pub bold: bool,
    pub italic: bool,
}

/// A block's values as plain values.
pub struct BlockParamsView {
    pub base_size: i32,
    pub kerning: i32,
    pub line_spacing: i32,
    pub anchor_x: i32,
    pub anchor_y: i32,
    pub hdir: HDir,
    pub vdir: VDir,
    pub font: Seq<char>,
    pub color: Seq<char>,
    pub bold: bool,
    pub italic: bool,
}

impl View for BlockParams {
    type V = BlockParamsView;

    open spec fn view(&self) -> BlockParamsView {
        BlockParamsView {
            base_size: self.base_size,
            kerning: self.kerning,
            line_spacing: self.line_spacing,
            anchor_x: self.anchor_x,
            anchor_y: self.anchor_y,
            hdir: self.hdir,
            vdir: self.vdir,
            font: self.font@,
            color: self.color@,
            bold: self.bold,
            italic: self.italic,
        }
    }
}

/// One placed character: its style with every default filled in, its position, and its
/// place in the order of emission.
#[derive(Debug, Clone, PartialEq)]
pub struct Placement {
    pub ch: char,
    pub size: i32,
    pub font: String,
    pub color: String,
    pub bold: bool,
    pub italic: bool,
    pub x: i64,
    pub y: i64,
    /// Counts the placements before this one.
    pub index: usize,
}

/// A placement as plain values.
pub struct PlacementView {
    pub ch: char,
    pub size: int,
    pub font: Seq<char>,
    pub color: Seq<char>,
    pub bold: bool,
    pub italic: bool,
    pub x: int,
    pub y: int,
    pub index: nat,
}

impl View for Placement {
    type V = PlacementView;

    open spec fn view(&self) -> PlacementView {
        PlacementView {
            ch: self.ch,
            size: self.size as int,
            font: self.font@,
            color: self.color@,
            bold: self.bold,
            italic: self.italic,
            x: self.x as int,
            y: self.y as int,
            index: self.index as nat,
        }
    }
}

/// What a list of placements stands for.
pub open spec fn placements_of(ps: Seq<Placement>) -> Seq<PlacementView> {
    ps.map_values(|p: Placement| p@)
}

/// Whether `text` begins with the two characters that stand for a line break.
pub open spec fn starts_with_break(text: Seq<char>) -> bool {
    text.len() >= 2 && text[0] == '\\' && text[1] == 'n'
}

/// The units of a text, read from the left: backslash and `n` together are one line
/// break, every other character is a glyph.
pub open spec fn units_of(text: Seq<char>) -> Seq<Unit>
    decreases text.len(),
{
    if text.len() == 0 {
        Seq::empty()
    } else if starts_with_break(text) {
        seq![Unit::Break] + units_of(text.skip(2))
    } else {
        let first = text[0];
        seq![Unit::Glyph(first)] + units_of(text.skip(1))
    }
}

/// The cells of run number `run`, whose text is `text`.
pub open spec fn run_cells(text: Seq<char>, run: int) -> Seq<Cell> {
    units_of(text).map_values(|u: Unit| Cell { unit: u, run: run as usize })
}

/// The cells of a block: the units of each run in turn, each with its run's index.
pub open spec fn cells_of(runs: Seq<MeasuredRunView>) -> Seq<Cell>
    decreases runs.len(),
{
    if runs.len() == 0 {
        Seq::empty()
    } else {
        cells_of(runs.drop_last()) + run_cells(runs.last().text, runs.len() - 1)
    }
}

/// The size of the run that `cell` belongs to: its own, or the block's base size.
pub open spec fn size_at(runs: Seq<MeasuredRunView>, params: BlockParamsView, cell: Cell) -> int {
    match runs[cell.run as int].size {
        Some(s) => s as int,
        None => params.base_size as int,
    }
}

/// How far a glyph moves the pen: its size plus the kerning.
pub open spec fn advance(runs: Seq<MeasuredRunView>, params: BlockParamsView, cell: Cell) -> int {
    size_at(runs, params, cell) + params.kerning
}

/// How far a line break moves the pen down in the second pass.
pub open spec fn line_step(params: BlockParamsView) -> int {
    params.base_size + params.line_spacing
}

/// The pen's distance from the start of its line after the first `k` cells.
pub open spec fn pen_x(
    cells: Seq<Cell>,
    runs: Seq<MeasuredRunView>,
    params: BlockParamsView,
    k: int,
) -> int
    decreases k,
{
    if k <= 0 {
        0
    } else {
        match cells[k - 1].unit {
            Unit::Break => 0,
            Unit::Glyph(_) => pen_x(cells, runs, params, k - 1) + advance(runs, params, cells[k - 1]),
        }
    }
}

/// The pen's distance below the first line after the first `k` cells.
pub open spec fn pen_y(cells: Seq<Cell>, params: BlockParamsView, k: int) -> int
    decreases k,
{
    if k <= 0 {
        0
    } else {
        match cells[k - 1].unit {
            Unit::Break => pen_y(cells, params, k - 1) + line_step(params),
            Unit::Glyph(_) => pen_y(cells, params, k - 1),
        }
    }
}

/// The largest size among the glyphs of the line that is open after the first `k`
/// cells; 0 while the line holds none.
pub open spec fn line_height(
    cells: Seq<Cell>,
    runs: Seq<MeasuredRunView>,
    params: BlockParamsView,
    k: int,
) -> int
    decreases k,
{
    if k <= 0 {
        0
    } else {
        match cells[k - 1].unit {
            Unit::Break => 0,
            Unit::Glyph(_) => {
                let before = line_height(cells, runs, params, k - 1);
                let size = size_at(runs, params, cells[k - 1]);
                if size > before {
                    size
                } else {
                    before
                }
            },
        }
    }
}

/// Whether the line that is open after the first `k` cells holds a glyph.
pub open spec fn line_has_glyph(cells: Seq<Cell>, k: int) -> bool {
    k > 0 && cells[k - 1].unit is Glyph
}

/// The width of the widest line that a break has closed among the first `k` cells.
pub open spec fn width_closed(
    cells: Seq<Cell>,
    runs: Seq<MeasuredRunView>,
    params: BlockParamsView,
    k: int,
) -> int
    decreases k,
{
    if k <= 0 {
        0
    } else {
        let before = width_closed(cells, runs, params, k - 1);
        match cells[k - 1].unit {
            Unit::Break => {
                let line = pen_x(cells, runs, params, k - 1);
                if line > before {
                    line
                } else {
                    before
                }
            },
            Unit::Glyph(_) => before,
        }
    }
}

/// The height of the lines that a break has closed among the first `k` cells: for each,
/// its line height, or the base size where it holds no glyph, plus the line spacing.
pub open spec fn height_closed(
    cells: Seq<Cell>,
    runs: Seq<MeasuredRunView>,
    params: BlockParamsView,
    k: int,
) -> int
    decreases k,
{
    if k <= 0 {
        0
    } else {
        let before = height_closed(cells, runs, params, k - 1);
        match cells[k - 1].unit {
            Unit::Break => before + (if line_has_glyph(cells, k - 1) {
                line_height(cells, runs, params, k - 1)
            } else {
                params.base_size as int
            }) + params.line_spacing,
            Unit::Glyph(_) => before,
        }
    }
}

/// The measured width of a block: that of its widest line, the last one included.
pub open spec fn block_width(
    cells: Seq<Cell>,
    runs: Seq<MeasuredRunView>,
    params: BlockParamsView,
) -> int {
    let closed = width_closed(cells, runs, params, cells.len() as int);
    let open = pen_x(cells, runs, params, cells.len() as int);
    if open > closed {
        open
    } else {
        closed
    }
}

/// The measured height of a block: that of its closed lines, plus the line height of
/// the last one.
pub open spec fn block_height(
    cells: Seq<Cell>,
    runs: Seq<MeasuredRunView>,
    params: BlockParamsView,
) -> int {
    height_closed(cells, runs, params, cells.len() as int) + line_height(
        cells,
        runs,
        params,
        cells.len() as int,
    )
}

/// How far left of the anchor a block of width `w` begins.
pub open spec fn h_offset(dir: HDir, w: int) -> int {
    match dir {
        HDir::Left => 0,
        HDir::Mid => w / 2,
        HDir::Right => w,
    }
}

/// How far above the anchor a block of height `h` begins.
pub open spec fn v_offset(dir: VDir, h: int) -> int {
    match dir {
        VDir::Top => 0,
        VDir::Center => h / 2,
        VDir::Bottom => h,
    }
}

/// Where the pen starts: the anchor, moved left by the horizontal offset.
pub open spec fn origin_x(
    cells: Seq<Cell>,
    runs: Seq<MeasuredRunView>,
    params: BlockParamsView,
) -> int {
    params.anchor_x - h_offset(params.hdir, block_width(cells, runs, params))
}

/// Where the pen starts: the anchor, moved up by the vertical offset.
pub open spec fn origin_y(
    cells: Seq<Cell>,
    runs: Seq<MeasuredRunView>,
    params: BlockParamsView,
) -> int {
    params.anchor_y - v_offset(params.vdir, block_height(cells, runs, params))
}

/// The placement of the glyph `ch` that is cell number `k`, as placement number `index`:
/// it stands where the pen is after the cells before it, in its run's style, with the
/// block's value wherever the run sets none.
pub open spec fn placement_at(
    cells: Seq<Cell>,
    runs: Seq<MeasuredRunView>,
    params: BlockParamsView,
    k: int,
    ch: char,
    index: nat,
) -> PlacementView {
    let run = runs[cells[k].run as int];
    PlacementView {
        ch,
        size: size_at(runs, params, cells[k]),
        font: match run.font {
            Some(f) => f,
            None => params.font,
        },
        color: match run.color {
            Some(c) => c,
            None => params.color,
        },
        bold: match run.is_bold {
            Some(b) => b,
            None => params.bold,
        },
        italic: match run.is_italic {
            Some(i) => i,
            None => params.italic,
        },
        x: origin_x(cells, runs, params) + pen_x(cells, runs, params, k),
        y: origin_y(cells, runs, params) + pen_y(cells, params, k),
        index,
    }
}

/// The placements of the glyphs among the first `k` cells, in order. A line break
/// places nothing.
pub open spec fn placed(
    cells: Seq<Cell>,
    runs: Seq<MeasuredRunView>,
    params: BlockParamsView,
    k: int,
) -> Seq<PlacementView>
    decreases k,
{
    if k <= 0 {
        Seq::empty()
    } else {
        let before = placed(cells, runs, params, k - 1);
        match cells[k - 1].unit {
            Unit::Break => before,
            Unit::Glyph(ch) => before.push(
                placement_at(cells, runs, params, k - 1, ch, before.len()),
            ),
        }
    }
}

/// The placements of a block: one for each glyph of its runs, in reading order.
pub open spec fn laid_out(runs: Seq<MeasuredRunView>, params: BlockParamsView) -> Seq<
    PlacementView,
> {
    let cells = cells_of(runs);
    placed(cells, runs, params, cells.len() as int)
}

/// The offsets of the three anchorings: a block aligned left or top begins at its
/// anchor, one aligned right or bottom ends there, and one in the middle lies half on
/// each side.
pub proof fn lemma_anchor_offsets(w: int, h: int)
    ensures
        h_offset(HDir::Left, w) == 0,
        h_offset(HDir::Mid, w) == w / 2,
        h_offset(HDir::Right, w) == w,
        h_offset(HDir::Left, w) + h_offset(HDir::Right, w) == w,
        v_offset(VDir::Top, h) == 0,
        v_offset(VDir::Center, h) == h / 2,
        v_offset(VDir::Bottom, h) == h,
        v_offset(VDir::Top, h) + v_offset(VDir::Bottom, h) == h,
{
}

/// The placements among the first `k` cells are numbered from 0 in the order in which
/// they are emitted, and there is at most one for each cell.
pub proof fn lemma_placed_indices(
    cells: Seq<Cell>,
    runs: Seq<MeasuredRunView>,
    params: BlockParamsView,
    k: int,
)
    requires
        0 <= k <= cells.len(),
    ensures
        placed(cells, runs, params, k).len() <= k,
        forall|i: int|
            0 <= i < placed(cells, runs, params, k).len() ==> (#[trigger] placed(
                cells,
                runs,
                params,
                k,
            )[i]).index == i,
    decreases k,
{
    if k > 0 {
        lemma_placed_indices(cells, runs, params, k - 1);
    }
}

/// In the placements of a block, each placement's index is its position in the list.
pub proof fn lemma_layout_indices(runs: Seq<MeasuredRunView>, params: BlockParamsView)
    ensures
        forall|i: int|
            0 <= i < laid_out(runs, params).len() ==> (#[trigger] laid_out(runs, params)[i]).index
                == i,
{
    let cells = cells_of(runs);
    lemma_placed_indices(cells, runs, params, cells.len() as int);
}

/// Layout is a function of its arguments: two lists of placements that `layout` may
/// return for the same runs and the same block are the same, value for value.
pub proof fn lemma_layout_deterministic(
    first: Seq<Placement>,
    second: Seq<Placement>,
    runs: Seq<MeasuredRun>,
    params: BlockParams,
)
    requires
        placements_of(first) == laid_out(measured(runs), params@),
        placements_of(second) == laid_out(measured(runs), params@),
    ensures
        first.len() == second.len(),
        forall|i: int| 0 <= i < first.len() ==> (#[trigger] first[i])@ == second[i]@,
{
    assert(placements_of(first).len() == first.len());
    assert(placements_of(second).len() == second.len());
    assert forall|i: int| 0 <= i < first.len() implies (#[trigger] first[i])@ == second[i]@ by {
        assert(placements_of(first)[i] == first[i]@);
        assert(placements_of(second)[i] == second[i]@);
    }
}

/// A block without runs has no placements.
pub proof fn lemma_no_runs(params: BlockParamsView)
    ensures
        laid_out(Seq::empty(), params) == Seq::<PlacementView>::empty(),
{
}

/// Every cell of a block names one of its runs.
pub proof fn lemma_cells_of(runs: Seq<MeasuredRunView>)
    requires
        runs.len() <= usize::MAX,
    ensures
        forall|k: int| 0 <= k < cells_of(runs).len() ==> (#[trigger] cells_of(runs)[k]).run < runs.len(),
    decreases runs.len(),
{
    if runs.len() > 0 {
        lemma_cells_of(runs.drop_last());
    }
}

/// The first unit of what follows the first `pos` characters of a text: the units of
/// that rest are this unit and then the units of what follows it.
proof fn lemma_units_step(text: Seq<char>, pos: int)
    requires
        0 <= pos < text.len(),
    ensures
        starts_with_break(text.skip(pos)) ==> units_of(text.skip(pos)) == Seq::empty().push(
            Unit::Break,
        ) + units_of(text.skip(pos + 2)),
        !starts_with_break(text.skip(pos)) ==> units_of(text.skip(pos)) == Seq::empty().push(
            Unit::Glyph(text[pos]),
        ) + units_of(text.skip(pos + 1)),
{
    let rest = text.skip(pos);
    assert(rest.len() > 0 && rest[0] == text[pos]);
    lemma_char_range(text[pos]);
    if starts_with_break(rest) {
        assert(rest.skip(2) =~= text.skip(pos + 2));
        assert(units_of(rest) =~= Seq::empty().push(Unit::Break) + units_of(rest.skip(2)));
    } else {
        assert(rest.skip(1) =~= text.skip(pos + 1));
        assert(units_of(rest) =~= Seq::empty().push(Unit::Glyph(rest[0])) + units_of(
            rest.skip(1),
        ));
    }
}

/// Splits the runs' texts into cells.
pub fn expand(runs: &[MeasuredRun]) -> (cells: Vec<Cell>)
    ensures
        cells@ == cells_of(measured(runs@)),
        forall|k: int| 0 <= k < cells.len() ==> (#[trigger] cells[k]).run < runs.len(),
{
    let ghost views = measured(runs@);
    let mut cells: Vec<Cell> = Vec::new();
    let mut r: usize = 0;
    while r < runs.len()
        invariant
            r <= runs.len(),
            views == measured(runs@),
            cells@ == cells_of(views.take(r as int)),
        decreases runs.len() - r,
    {
        let chars = to_chars(runs[r].element.text.as_str());
        let ghost text = views[r as int].text;
        let ghost before = cells@;
        let ghost mut done: Seq<Cell> = Seq::empty();
        assert(chars@ == text);
        assert(text.skip(0) =~= text);
        let mut pos: usize = 0;
        while pos < chars.len()
            invariant
                pos <= chars.len(),
                r < runs.len(),
                chars@ == text,
                cells@ == before + done,
                run_cells(text, r as int) == done + run_cells(text.skip(pos as int), r as int),
            decreases chars.len() - pos,
        {
            let ghost rest = text.skip(pos as int);
            proof {
                lemma_char_range(text[pos as int]);
            }
            let cell: Cell;
            let next: usize;
            if chars[pos] == '\\' && pos + 1 < chars.len() && chars[pos + 1] == 'n' {
                assert(starts_with_break(rest));
                cell = Cell { unit: Unit::Break, run: r };
                next = pos + 2;
            } else {
                assert(!starts_with_break(rest));
                cell = Cell { unit: Unit::Glyph(chars[pos]), run: r };
                next = pos + 1;
            }
            proof {
                lemma_units_step(text, pos as int);
                assert(run_cells(rest, r as int) =~= seq![cell] + run_cells(
                    text.skip(next as int),
                    r as int,
                ));
                assert(done.push(cell) + run_cells(text.skip(next as int), r as int) =~= done + (
                seq![cell] + run_cells(text.skip(next as int), r as int)));
                assert((before + done).push(cell) =~= before + done.push(cell));
                done = done.push(cell);
            }
            cells.push(cell);
            pos = next;
        }
        proof {
            assert(text.skip(pos as int) =~= Seq::<char>::empty());
            assert(done + run_cells(Seq::<char>::empty(), r as int) =~= done);
            assert(views.take(r + 1).drop_last() =~= views.take(r as int));
            assert(views.take(r + 1).last() == views[r as int]);
        }
        r += 1;
    }
    proof {
        assert(views.take(r as int) =~= views);
        lemma_cells_of(views);
    }
    cells
}

/// The size that the glyphs of a cell's run are set in.
fn cell_size(runs: &[MeasuredRun], params: &BlockParams, cell: &Cell) -> (size: i32)
    requires
        cell.run < runs.len(),
    ensures
        size == size_at(measured(runs@), params@, *cell),
{
    match runs[cell.run].size {
        Some(s) => s,
        None => params.base_size,
    }
}

/// Half of `v`, rounded down.
fn half(v: i64) -> (r: i64)
    requires
        -0x4000_0000_0000_0000 <= v <= 0x4000_0000_0000_0000,
    ensures
        r == v / 2,
{
    if v >= 0 {
        v / 2
    } else {
        -((1 - v) / 2)
    }
}

/// The first pass: the width and the height of the block that the cells fill.
pub fn measure(cells: &[Cell], runs: &[MeasuredRun], params: &BlockParams) -> (r: (i64, i64))
    requires
        cells.len() <= MAX_UNITS,
        forall|k: int| 0 <= k < cells.len() ==> (#[trigger] cells[k]).run < runs.len(),
    ensures
        r.0 == block_width(cells@, measured(runs@), params@),
        r.1 == block_height(cells@, measured(runs@), params@),
        0 <= r.0 <= cells.len() * 0x1_0000_0000,
        -(cells.len() + 1) * 0x1_0000_0000 <= r.1 <= (cells.len() + 1) * 0x1_0000_0000,
{
    let ghost views = measured(runs@);
    let mut w: i64 = 0;
    let mut w_temp: i64 = 0;
    let mut h: i64 = 0;
    let mut h_temp: i64 = 0;
    let mut has_glyph = false;
    let mut k: usize = 0;
    while k < cells.len()
        invariant
            k <= cells.len() <= MAX_UNITS,
            views == measured(runs@),
            forall|j: int| 0 <= j < cells.len() ==> (#[trigger] cells[j]).run < runs.len(),
            w == width_closed(cells@, views, params@, k as int),
            w_temp == pen_x(cells@, views, params@, k as int),
            h == height_closed(cells@, views, params@, k as int),
            h_temp == line_height(cells@, views, params@, k as int),
            has_glyph == line_has_glyph(cells@, k as int),
            0 <= w <= k * 0x1_0000_0000,
            -k * 0x1_0000_0000 <= w_temp <= k * 0x1_0000_0000,
            -k * 0x1_0000_0000 <= h <= k * 0x1_0000_0000,
            0 <= h_temp <= 0x7fff_ffff,
        decreases cells.len() - k,
    {
        let cell = cells[k];
        match cell.unit {
            Unit::Break => {
                if w_temp > w {
                    w = w_temp;
                }
                let line: i64 = if has_glyph {
                    h_temp
                } else {
                    params.base_size as i64
                };
                h = h + line + params.line_spacing as i64;
                w_temp = 0;
                h_temp = 0;
                has_glyph = false;
            },
            Unit::Glyph(_) => {
                let size = cell_size(runs, params, &cell);
                w_temp = w_temp + size as i64 + params.kerning as i64;
                if size as i64 > h_temp {
                    h_temp = size as i64;
                }
                has_glyph = true;
            },
        }
        k += 1;
    }
    if w_temp > w {
        w = w_temp;
    }
    (w, h + h_temp)
}

/// How far left of the anchor a block of width `w` begins.
fn horizontal_offset(dir: HDir, w: i64) -> (off: i64)
    requires
        0 <= w <= 0x4000_0000_0000_0000,
    ensures
        off == h_offset(dir, w as int),
        0 <= off <= w,
{
    match dir {
        HDir::Left => 0,
        HDir::Mid => half(w),
        HDir::Right => w,
    }
}

/// How far above the anchor a block of height `h` begins.
fn vertical_offset(dir: VDir, h: i64) -> (off: i64)
    requires
        -0x4000_0000_0000_0000 <= h <= 0x4000_0000_0000_0000,
    ensures
        off == v_offset(dir, h as int),
        -0x4000_0000_0000_0000 <= off <= 0x4000_0000_0000_0000,
{
    match dir {
        VDir::Top => 0,
        VDir::Center => half(h),
        VDir::Bottom => h,
    }
}

/// A copy of the run's string, or of the block's where the run has none.
fn resolve_text(own: &Option<String>, fallback: &String) -> (r: String)
    ensures
        r@ == (match opt_view(*own) {
            Some(s) => s,
            None => fallback@,
        }),
{
    match own {
        Some(s) => s.clone(),
        None => fallback.clone(),
    }
}

/// The run's flag, or the block's where the run has none.
fn resolve_flag(own: Option<bool>, fallback: bool) -> (r: bool)
    ensures
        r == (match own {
            Some(b) => b,
            None => fallback,
        }),
{
    match own {
        Some(b) => b,
        None => fallback,
    }
}

/// The second pass: walks the pen over the cells of a block and places its glyphs.
fn place(cells: &[Cell], runs: &[MeasuredRun], params: &BlockParams) -> (out: Vec<Placement>)
    requires
        cells@ == cells_of(measured(runs@)),
        cells.len() <= MAX_UNITS,
        forall|k: int| 0 <= k < cells.len() ==> (#[trigger] cells[k]).run < runs.len(),
    ensures
        placements_of(out@) == laid_out(measured(runs@), params@),
{
    let ghost views = measured(runs@);
    let (w, h) = measure(cells, runs, params);
    let x0: i64 = params.anchor_x as i64 - horizontal_offset(params.hdir, w);
    let y0: i64 = params.anchor_y as i64 - vertical_offset(params.vdir, h);
    let step: i64 = params.base_size as i64 + params.line_spacing as i64;
    let mut x: i64 = x0;
    let mut y: i64 = y0;
    let mut out: Vec<Placement> = Vec::new();
    let mut k: usize = 0;
    while k < cells.len()
        invariant
            k <= cells.len() <= MAX_UNITS,
            views == measured(runs@),
            cells@ == cells_of(views),
            forall|j: int| 0 <= j < cells.len() ==> (#[trigger] cells[j]).run < runs.len(),
            x0 == origin_x(cells@, views, params@),
            y0 == origin_y(cells@, views, params@),
            step == line_step(params@),
            -0x2000_0000_0000_0000 <= x0 <= 0x2000_0000_0000_0000,
            -0x2000_0000_0000_0000 <= y0 <= 0x2000_0000_0000_0000,
            x == x0 + pen_x(cells@, views, params@, k as int),
            y == y0 + pen_y(cells@, params@, k as int),
            -k * 0x1_0000_0000 <= pen_x(cells@, views, params@, k as int) <= k * 0x1_0000_0000,
            -k * 0x1_0000_0000 <= pen_y(cells@, params@, k as int) <= k * 0x1_0000_0000,
            out.len() <= k,
            placements_of(out@) == placed(cells@, views, params@, k as int),
        decreases cells.len() - k,
    {
        let cell = cells[k];
        match cell.unit {
            Unit::Break => {
                x = x0;
                y = y + step;
            },
            Unit::Glyph(ch) => {
                let run = &runs[cell.run];
                let size = cell_size(runs, params, &cell);
                let placement = Placement {
                    ch,
                    size,
                    font: resolve_text(&run.element.font, &params.font),
                    color: resolve_text(&run.element.color, &params.color),
                    bold: resolve_flag(run.element.is_bold, params.bold),
                    italic: resolve_flag(run.element.is_italic, params.italic),
                    x,
                    y,
                    index: out.len(),
                };
                proof {
                    let before = placed(cells@, views, params@, k as int);
                    assert(placement@ == placement_at(
                        cells@,
                        views,
                        params@,
                        k as int,
                        ch,
                        before.len(),
                    ));
                    assert(placements_of(out@.push(placement)) =~= placements_of(out@).push(
                        placement@,
                    ));
                }
                out.push(placement);
                x = x + size as i64 + params.kerning as i64;
            },
        }
        k += 1;
    }
    out
}

/// Lays a block out: one placement for each character of the runs, in reading order.
///
/// A first pass measures the block; its width and height, through the alignment, give
/// the point where the pen starts. A second pass walks the pen: a character is placed
/// where the pen stands and moves it right by the character's size plus the kerning; a
/// line break places nothing, returns the pen to the start of the line and moves it down
/// by the base size plus the line spacing.
///
/// The block holds at most `MAX_UNITS` units; `try_layout` tests this itself.
pub fn layout(runs: &[MeasuredRun], params: &BlockParams) -> (out: Vec<Placement>)
    requires
        cells_of(measured(runs@)).len() <= MAX_UNITS,
    ensures
        placements_of(out@) == laid_out(measured(runs@), params@),
{
    let cells = expand(runs);
    place(cells.as_slice(), runs, params)
}

/// Lays a block out as `layout` does, or returns `None` for a block of more than
/// `MAX_UNITS` units.
pub fn try_layout(runs: &[MeasuredRun], params: &BlockParams) -> (r: Option<Vec<Placement>>)
    ensures
        match r {
            Some(out) => cells_of(measured(runs@)).len() <= MAX_UNITS && placements_of(out@)
                == laid_out(measured(runs@), params@),
            None => cells_of(measured(runs@)).len() > MAX_UNITS,
        },
{
    let cells = expand(runs);
    if cells.len() > MAX_UNITS {
        None
    } else {
        Some(place(cells.as_slice(), runs, params))
    }
}

} // verus!
