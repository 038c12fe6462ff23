//! How the screen is divided.
use vstd::prelude::*;

use crate::layout::{fixed_below, fixed_on_top, in_quarters, is_row_of, Area};
use crate::panes::console_laid_out;

verus! {

/// Whether an area ends on the screen, whose lines are counted with sixteen bits.
pub open spec fn is_on_screen(area: Area) -> bool {
    area.y + area.height <= 0xffff
}

/// The panes stand one below the other and fill the screen: the source and the bytecode have a quarter
/// of the lines each, to within a line, and the console has half of them.
pub proof fn law_screen_is_divided(source: Area, bytecode: Area, console: Area, screen: Area)
    requires
        is_on_screen(screen),
        in_quarters(source, bytecode, console, screen),
    ensures
        source.y == screen.y,
        bytecode.y == source.y + source.height,
        console.y == bytecode.y + bytecode.height,
        console.y + console.height == screen.y + screen.height,
        -4 < 4 * source.height - screen.height < 4,
        -4 < 4 * bytecode.height - screen.height < 4,
        -2 < 2 * console.height - screen.height < 2,
{
    let rows = seq![source, bytecode, console];
    assert(rows[0] == source && rows[1] == bytecode && rows[2] == console);
}

/// The title of a pane is its first line, if it has one, and the text is all the rest, below it.
pub proof fn law_title_is_on_top(bar: Area, body: Area, pane: Area)
    requires
        is_on_screen(pane),
        fixed_on_top(bar, body, 1, pane),
    ensures
        bar.y == pane.y,
        bar.height == (if pane.height == 0 {
            0int
        } else {
            1
        }),
        body.y == bar.y + bar.height,
        body.y + body.height == pane.y + pane.height,
{
    let rows = seq![bar, body];
    assert(rows[0] == bar && rows[1] == body);
}

/// The input of the console is its last line, and the log is all that is above it.
pub proof fn law_input_is_below(log: Area, input: Area, pane: Area)
    requires
        is_on_screen(pane),
        fixed_below(log, input, 1, pane),
    ensures
        log.y == pane.y,
        input.height == (if pane.height == 0 {
            0int
        } else {
            1
        }),
        input.y == log.y + log.height,
        input.y + input.height == pane.y + pane.height,
{
    let rows = seq![log, input];
    assert(rows[0] == log && rows[1] == input);
}

/// The console has its title on its first line, its input on its last line, and the log between them.
pub proof fn law_console_is_laid_out(bar: Area, log: Area, input: Area, pane: Area)
    requires
        is_on_screen(pane),
        console_laid_out(bar, log, input, pane),
    ensures
        bar.y == pane.y,
        log.y == bar.y + bar.height,
        input.y == log.y + log.height,
        input.y + input.height == pane.y + pane.height,
        pane.height >= 2 ==> bar.height == 1 && input.height == 1,
        pane.height == 1 ==> bar.height == 1 && log.height == 0 && input.height == 0,
{
    let rows = seq![bar, log, input];
    assert(rows[0] == bar && rows[1] == log && rows[2] == input);
}

/// A row is as wide as its area and lies within it.
pub proof fn law_rows_lie_within(row: Area, area: Area)
    requires
        is_on_screen(area),
        is_row_of(row, area),
    ensures
        row.x == area.x,
        row.width == area.width,
        area.y <= row.y,
        row.y + row.height <= area.y + area.height,
{
}

} // verus!
