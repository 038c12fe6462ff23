//! The screen, divided into areas from top to bottom.
use ratatui::layout::{Constraint, Direction, Layout, Rect};
use vstd::prelude::*;

verus! {

/// A part of the screen, in cells.
#[derive(Copy, Clone, Debug, PartialEq, Eq, Structural)]
pub struct Area {
    pub x: u16,
    pub y: u16,
    pub width: u16,
    pub height: u16,
}

/// The wanted height of a row.
#[derive(Copy, Clone, Debug, PartialEq, Eq, Structural)]
pub enum RowHeight {
    Percentage(u16),
    Length(u16),
    Min(u16),
}

/// The line below an area; the screen has no more lines than sixteen bits can count.
pub open spec fn bottom(area: Area) -> int {
    if area.y + area.height <= u16::MAX {
        area.y + area.height
    } else {
        u16::MAX as int
    }
}

/// Whether a row lies within an area and is as wide as it.
pub open spec fn is_row_of(row: Area, area: Area) -> bool {
    &&& row.x == area.x
    &&& row.width == area.width
    &&& area.y <= row.y
    &&& row.y + row.height <= bottom(area)
}

/// Whether the areas are as many rows of the whole area as wanted.
pub open spec fn are_rows(rows: Seq<Area>, area: Area, count: nat) -> bool {
    &&& rows.len() == count
    &&& forall|i: int| 0 <= i < rows.len() ==> is_row_of(#[trigger] rows[i], area)
}

/// How many lines of an area are on the screen.
pub open spec fn lines_of(area: Area) -> int {
    bottom(area) - area.y
}

/// The smaller one of two numbers.
pub open spec fn least(a: int, b: int) -> int {
    if a <= b {
        a
    } else {
        b
    }
}

/// Whether the rows stand one below the other, from the top of the area on, without gaps.
pub open spec fn stacked(rows: Seq<Area>, area: Area) -> bool {
    &&& rows.len() > 0 ==> rows[0].y == area.y
    &&& forall|i: int|
        0 < i < rows.len() ==> (#[trigger] rows[i]).y == rows[i - 1].y + rows[i - 1].height
}

/// Whether two rows fill the area, the upper one with `n` lines if there are so many.
pub open spec fn fixed_on_top(top: Area, rest: Area, n: int, area: Area) -> bool {
    &&& stacked(seq![top, rest], area)
    &&& top.height == least(n, lines_of(area))
    &&& top.height + rest.height == lines_of(area)
}

/// Whether two rows fill the area, the lower one with `n` lines if there are so many.
pub open spec fn fixed_below(rest: Area, low: Area, n: int, area: Area) -> bool {
    &&& stacked(seq![rest, low], area)
    &&& low.height == least(n, lines_of(area))
    &&& rest.height + low.height == lines_of(area)
}

/// Whether three rows fill the area, with a quarter, a quarter and half of its lines, the bounds
/// between them rounded to the next line.
pub open spec fn in_quarters(first: Area, second: Area, third: Area, area: Area) -> bool {
    &&& stacked(seq![first, second, third], area)
    &&& first.height == (lines_of(area) + 2) / 4
    &&& first.height + second.height == (lines_of(area) + 1) / 2
    &&& first.height + second.height + third.height == lines_of(area)
}

/// Whether the rows are as high as wanted, for those wanted heights that leave no choice: a length and
/// all the rest, in either order, or two quarters and a half.
pub open spec fn settled(rows: Seq<Area>, heights: Seq<RowHeight>, area: Area) -> bool {
    if heights.len() == 2 {
        match (heights[0], heights[1]) {
            (RowHeight::Length(n), RowHeight::Min(m)) => m == 0 ==> fixed_on_top(
                rows[0],
                rows[1],
                n as int,
                area,
            ),
            (RowHeight::Min(m), RowHeight::Length(n)) => m == 0 ==> fixed_below(
                rows[0],
                rows[1],
                n as int,
                area,
            ),
            _ => true,
        }
    } else {
        heights == seq![
            RowHeight::Percentage(25),
            RowHeight::Percentage(25),
            RowHeight::Percentage(50),
        ] ==> in_quarters(rows[0], rows[1], rows[2], area)
    }
}

/// `ratatui::layout::Layout::split` on a vertical layout: one row for each wanted height, each of them
/// within the area and as wide as it. The layout starts at the top and has no space between the rows,
/// so a length and a minimum of nothing, in either order, or percentages that add up to the whole
/// leave no choice: the length is kept as far as there is room, the minimum takes all the rest, and
/// the bounds between percentages are rounded. Of other heights nothing more is claimed.
#[verifier::external_body]
fn split_rows(area: Area, heights: &Vec<RowHeight>) -> (rows: Vec<Area>)
    ensures
        are_rows(rows@, area, heights@.len()),
        settled(rows@, heights@, area),
{
    let constraints = heights.iter().map(|height| match height {
        RowHeight::Percentage(n) => Constraint::Percentage(*n),
        RowHeight::Length(n) => Constraint::Length(*n),
        RowHeight::Min(n) => Constraint::Min(*n),
    });
    let layout = Layout::default().direction(Direction::Vertical).constraints(constraints);
    let whole = Rect { x: area.x, y: area.y, width: area.width, height: area.height };
    let rows = layout.split(whole);
    rows.iter().map(|r| Area { x: r.x, y: r.y, width: r.width, height: r.height }).collect()
}

/// The areas of the three panes: a quarter of the height for the source, a quarter for the bytecode,
/// and half of it for the console.
pub fn split_screen(area: Area) -> (panes: (Area, Area, Area))
    ensures
        are_rows(seq![panes.0, panes.1, panes.2], area, 3),
        in_quarters(panes.0, panes.1, panes.2, area),
{
    let heights = vec![
        RowHeight::Percentage(25),
        RowHeight::Percentage(25),
        RowHeight::Percentage(50),
    ];
    assert(heights@ == seq![
        RowHeight::Percentage(25),
        RowHeight::Percentage(25),
        RowHeight::Percentage(50),
    ]);
    let rows = split_rows(area, &heights);
    assert(seq![rows[0], rows[1], rows[2]] == rows@);
    (rows[0], rows[1], rows[2])
}

/// The areas of a pane's title, one line, and of what is below it.
pub fn split_title_bar(area: Area) -> (parts: (Area, Area))
    ensures
        are_rows(seq![parts.0, parts.1], area, 2),
        fixed_on_top(parts.0, parts.1, 1, area),
{
    let rows = split_rows(area, &vec![RowHeight::Length(1), RowHeight::Min(0)]);
    assert(seq![rows[0], rows[1]] == rows@);
    (rows[0], rows[1])
}

/// The areas of the console's log and of its input, one line below the log.
pub fn split_input_line(area: Area) -> (parts: (Area, Area))
    ensures
        are_rows(seq![parts.0, parts.1], area, 2),
        fixed_below(parts.0, parts.1, 1, area),
{
    let rows = split_rows(area, &vec![RowHeight::Min(0), RowHeight::Length(1)]);
    assert(seq![rows[0], rows[1]] == rows@);
    (rows[0], rows[1])
}

} // verus!
