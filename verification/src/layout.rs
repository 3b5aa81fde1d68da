//! The layout of the screen: a header line, the two bordered panes side by
//! side, and a footer line; and the room that leaves for the rows.

use vstd::prelude::*;
use ratatui::layout::{Constraint, Direction, Layout, Rect};
use ratatui::widgets::{Block, Borders};
use crate::app::{lemma_decimal_digits_bound, App, CacheEntry};
use crate::render::build_rows_spec;
use crate::ui::{content_width, content_width_spec};

verus! {

/// A rectangle of terminal cells.
#[derive(Debug, Clone, Copy, PartialEq, Eq, Structural)]
pub struct Area {
    pub x: u16,
    pub y: u16,
    pub width: u16,
    pub height: u16,
}

/// How much room a part of a layout asks for.
#[derive(Debug, Clone, Copy, PartialEq, Eq, Structural)]
pub enum Size {
    /// Exactly this many cells.
    Length(u16),
    /// At least this many cells.
    Min(u16),
    /// This share of the room, in percent.
    Percentage(u16),
}

/// A part of a split of `area`: the parts of a vertical split span the
/// area's columns and lie within its rows; those of a horizontal split span
/// its rows and lie within its columns (the area's far edge taken as the
/// terminal's coordinates allow).
pub open spec fn part_of(vertical: bool, area: Area, part: Area) -> bool {
    if vertical {
        &&& part.x == area.x
        &&& part.width == area.width
        &&& area.y <= part.y
        &&& part.y + part.height <= sat_add(area.y, area.height)
    } else {
        &&& part.y == area.y
        &&& part.height == area.height
        &&& area.x <= part.x
        &&& part.x + part.width <= sat_add(area.x, area.width)
    }
}

/// `parts` is a split that ratatui's layout solver gives `area` for the
/// constraints `sizes`, stacked top to bottom (`vertical`) or left to right.
/// This is a relation, not a function: the solver walks hash maps seeded
/// anew in each process, and constraints that conflict may be settled more
/// than one way.
pub uninterp spec fn solver_split(vertical: bool, sizes: Seq<Size>, area: Area, parts: Seq<Area>) -> bool;

/// `Layout::split` of ratatui, with the direction and constraints given and
/// no margin: one area per constraint, as the solver places them. Its source
/// builds each area from the area given (less a zero margin, so the area
/// itself), keeping the columns of a vertical split and the rows of a
/// horizontal one; along the split each part starts and ends between the
/// area's edges and ends no sooner than it starts, as the solver's required
/// constraints hold each of its variables (the results are rounded to whole
/// cells). Where the parts fall between those bounds, and that they come in
/// order without overlap, is left unsaid: only weaker constraints ask for
/// it. The source panics only when the solver refuses the required
/// constraints, which the layouts used here always meet.
#[verifier::external_body]
fn split_area(vertical: bool, sizes: &[Size], area: Area) -> (r: Vec<Area>)
    ensures
        solver_split(vertical, sizes@, area, r@),
        r@.len() == sizes@.len(),
        forall|i: int| 0 <= i < r@.len() ==> part_of(vertical, area, #[trigger] r@[i]),
{
    let direction = if vertical { Direction::Vertical } else { Direction::Horizontal };
    let constraints: Vec<Constraint> = sizes.iter().map(|s| match *s {
        Size::Length(n) => Constraint::Length(n),
        Size::Min(n) => Constraint::Min(n),
        Size::Percentage(n) => Constraint::Percentage(n),
    }).collect();
    let rect = Rect { x: area.x, y: area.y, width: area.width, height: area.height };
    let parts = Layout::default().direction(direction).constraints(constraints).split(rect);
    parts.iter().map(|r| Area { x: r.x, y: r.y, width: r.width, height: r.height }).collect()
}

pub open spec fn sat_add(a: u16, b: u16) -> u16 {
    if a + b <= u16::MAX {
        (a + b) as u16
    } else {
        u16::MAX
    }
}

pub open spec fn sat_sub(a: u16, b: u16) -> u16 {
    if a >= b {
        (a - b) as u16
    } else {
        0
    }
}

pub open spec fn min_u16(a: u16, b: u16) -> u16 {
    if a <= b {
        a
    } else {
        b
    }
}

/// The inside of a border drawn round `a`: one cell in from each side,
/// clamped at the area's edges.
pub open spec fn bordered_inner_spec(a: Area) -> Area {
    Area {
        x: min_u16(sat_add(a.x, 1), sat_add(a.x, a.width)),
        y: min_u16(sat_add(a.y, 1), sat_add(a.y, a.height)),
        width: sat_sub(a.width, 2),
        height: sat_sub(a.height, 2),
    }
}

/// `Block::inner` of ratatui for a block with borders on all sides and no
/// padding: its source moves the left and top edges in by one cell (not past
/// the right and bottom edges) and takes one cell off each side.
#[verifier::external_body]
fn bordered_inner(area: Area) -> (r: Area)
    ensures
        r == bordered_inner_spec(area),
{
    let rect = Rect { x: area.x, y: area.y, width: area.width, height: area.height };
    let r = Block::default().borders(Borders::ALL).inner(rect);
    Area { x: r.x, y: r.y, width: r.width, height: r.height }
}

/// The parts of the screen.
#[derive(Debug, Clone, Copy, PartialEq, Eq, Structural)]
pub struct ScreenLayout {
    pub header: Area,
    pub body: Area,
    pub footer: Area,
    pub left_pane: Area,
    pub right_pane: Area,
    /// The inside of the left pane's border.
    pub left_inner: Area,
    /// The inside of the right pane's border.
    pub right_inner: Area,
}

/// The screen made of its three rows (header, body, footer) and the body's
/// two panes, each pane with its border.
pub open spec fn layout_from_spec(rows: Seq<Area>, panes: Seq<Area>) -> ScreenLayout {
    ScreenLayout {
        header: rows[0],
        body: rows[1],
        footer: rows[2],
        left_pane: panes[0],
        right_pane: panes[1],
        left_inner: bordered_inner_spec(panes[0]),
        right_inner: bordered_inner_spec(panes[1]),
    }
}

/// The rows of the screen: a line, a rest of at least one line, a line.
pub open spec fn screen_rows() -> Seq<Size> {
    seq![Size::Length(1), Size::Min(1), Size::Length(1)]
}

/// The panes of the body: two halves.
pub open spec fn body_panes() -> Seq<Size> {
    seq![Size::Percentage(50), Size::Percentage(50)]
}

/// `lay` lays out a screen of `area`: the solver's split of the screen into
/// `screen_rows` gives the header, body and footer, and its split of the
/// body into `body_panes` the two panes; so the rows span the screen's
/// columns and lie within its lines, the panes span the body's lines and lie
/// within its columns, and each pane's inside is what its border leaves.
pub open spec fn lays_out(area: Area, lay: ScreenLayout) -> bool {
    &&& solver_split(true, screen_rows(), area, seq![lay.header, lay.body, lay.footer])
    &&& solver_split(false, body_panes(), lay.body, seq![lay.left_pane, lay.right_pane])
    &&& part_of(true, area, lay.header)
    &&& part_of(true, area, lay.body)
    &&& part_of(true, area, lay.footer)
    &&& part_of(false, lay.body, lay.left_pane)
    &&& part_of(false, lay.body, lay.right_pane)
    &&& lay == layout_from_spec(
        seq![lay.header, lay.body, lay.footer],
        seq![lay.left_pane, lay.right_pane],
    )
}

/// The screen from its three rows and the body's two panes.
pub fn layout_from(rows: &[Area], panes: &[Area]) -> (r: ScreenLayout)
    requires
        rows@.len() == 3,
        panes@.len() == 2,
    ensures
        r == layout_from_spec(rows@, panes@),
{
    ScreenLayout {
        header: rows[0],
        body: rows[1],
        footer: rows[2],
        left_pane: panes[0],
        right_pane: panes[1],
        left_inner: bordered_inner(panes[0]),
        right_inner: bordered_inner(panes[1]),
    }
}

/// Lays the screen out: a line, a rest of at least one line and a line,
/// top to bottom; the rest cut into two halves side by side.
pub fn screen_layout(area: Area) -> (r: ScreenLayout)
    ensures
        lays_out(area, r),
{
    let row_sizes = vec![Size::Length(1), Size::Min(1), Size::Length(1)];
    assert(row_sizes@ =~= screen_rows());
    let rows = split_area(true, &row_sizes, area);
    let column_sizes = vec![Size::Percentage(50), Size::Percentage(50)];
    assert(column_sizes@ =~= body_panes());
    let panes = split_area(false, &column_sizes, rows[1]);
    let r = layout_from(rows.as_slice(), panes.as_slice());
    proof {
        assert(rows@ =~= seq![r.header, r.body, r.footer]);
        assert(panes@ =~= seq![r.left_pane, r.right_pane]);
        assert(part_of(true, area, rows@[0]));
        assert(part_of(true, area, rows@[1]));
        assert(part_of(true, area, rows@[2]));
        assert(part_of(false, rows@[1], panes@[0]));
        assert(part_of(false, rows@[1], panes@[1]));
    }
    r
}

/// The text widths of the two panes, the rows they show, and the rows of the
/// file shown (`r`), for the screen laid out as `lay`, with `before` and
/// `after` the application before and after: the widths are what the panes
/// leave beside the gutters, the height that of the lower pane; all zero and
/// nothing changed when there is no file. The view for those widths is
/// cached, unless it already was.
pub open spec fn metrics_effect(
    lay: ScreenLayout,
    before: App,
    after: App,
    r: (usize, usize, usize, usize),
) -> bool {
    &&& before.current_files().len() == 0 ==> (r == (0usize, 0usize, 0usize, 0usize) && after
        == before)
    &&& before.current_files().len() != 0 ==> {
        let f = before.current_file();
        let left_width = content_width_spec(lay.left_inner.width, crate::app::digits_spec(f.max_old_line));
        let right_width = content_width_spec(lay.right_inner.width, crate::app::digits_spec(f.max_new_line));
        &&& r.0 == left_width
        &&& r.1 == right_width
        &&& r.2 == min_u16(lay.left_inner.height, lay.right_inner.height)
        &&& after.same_files(&before)
        &&& after.scroll_pos() == before.scroll_pos()
        &&& after.cache() == if before.cache_hit(left_width, right_width) {
            before.cache()
        } else {
            Some(
                CacheEntry {
                    file_index: before.index(),
                    show_untracked: before.shows_untracked(),
                    left_width,
                    right_width,
                    file: f,
                },
            )
        }
        &&& r.3 == build_rows_spec(
            after.cache()->Some_0.file,
            left_width as nat,
            right_width as nat,
        ).total_rows
        &&& before.cache_fresh() ==> r.3 == build_rows_spec(
            f,
            left_width as nat,
            right_width as nat,
        ).total_rows
    }
    &&& before.cache_fresh() ==> after.cache_fresh()
}

/// The text widths, rows shown and rows of the file for the screen laid out
/// as `lay` (see `metrics_effect`).
pub fn view_metrics_for(lay: &ScreenLayout, app: &mut App) -> (r: (usize, usize, usize, usize))
    requires
        old(app).index_ok(),
    ensures
        metrics_effect(*lay, *old(app), *final(app), r),
        final(app).index_ok(),
{
    if app.is_empty() {
        return (0, 0, 0, 0);
    }
    let (left_digits, right_digits) = app.line_digits();
    proof {
        let f = app.current_file();
        let mo: nat = if f.max_old_line >= 1 { f.max_old_line as nat } else { 1 };
        let mn: nat = if f.max_new_line >= 1 { f.max_new_line as nat } else { 1 };
        lemma_decimal_digits_bound(mo);
        lemma_decimal_digits_bound(mn);
    }
    let left_width = content_width(lay.left_inner.width, left_digits);
    let right_width = content_width(lay.right_inner.width, right_digits);
    let height = if lay.left_inner.height <= lay.right_inner.height {
        lay.left_inner.height
    } else {
        lay.right_inner.height
    };
    let total_rows = match app.view(left_width, right_width) {
        Some(view) => view.total_rows,
        None => 0,
    };
    (left_width, right_width, height as usize, total_rows)
}

/// The text widths, rows shown and rows of the file for a screen of `area`:
/// what `view_metrics_for` gives for some layout of `area`, as the solver
/// placed it.
pub fn view_metrics(area: Area, app: &mut App) -> (r: (usize, usize, usize, usize))
    requires
        old(app).index_ok(),
    ensures
        exists|lay: ScreenLayout| lays_out(area, lay) && metrics_effect(lay, *old(app), *final(app), r),
        final(app).index_ok(),
{
    let lay = screen_layout(area);
    let r = view_metrics_for(&lay, app);
    proof {
        assert(lays_out(area, lay) && metrics_effect(lay, *old(app), *app, r));
    }
    r
}

} // verus!
