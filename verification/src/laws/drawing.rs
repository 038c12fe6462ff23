//! What the panes show.
use vstd::prelude::*;

use crate::hook::Context;
use crate::panes::{
    block_head, bytecode_line, bytecode_pane, console_pane, instruction_line, lemma_block_head,
    lemma_instruction_line, source_pane, title_text, BodyView, LineStyle,
};
use crate::text::{decimal, is_space, trimmed};
use crate::tui::{clamped, lemma_program_index, program_index, AppView, Pane, ProgramModel};

verus! {

/// Whether a line, without the blanks around it, is the head of the function's block.
pub open spec fn is_head_of(line: Seq<char>, function: Seq<char>, context: Context) -> bool {
    let text = trimmed(line);
    ||| context == Context::Transition && text == "function "@ + function + ":"@
    ||| context == Context::Transition && text == "closure "@ + function + ":"@
    ||| context == Context::Finalize && function != "constructor"@ && text == "finalize "@ + function
        + ":"@
    ||| context == Context::Finalize && function == "constructor"@ && text == "constructor:"@
}

/// Whether a line is the head of some block: it ends with a colon and is not indented.
pub open spec fn is_some_head(line: Seq<char>) -> bool {
    let text = trimmed(line);
    text.len() > 0 && text[text.len() - 1] == ':' && !is_space(line[0])
}

/// Whether a line, without the blanks around it, counts as an instruction: it is not empty, and begins
/// neither with `input` nor with `output`.
pub open spec fn counts(line: Seq<char>) -> bool {
    let text = trimmed(line);
    !(text.len() == 0 || "input "@.is_prefix_of(text) || "output "@.is_prefix_of(text))
}

/// How many of the lines from `from` to before `to` count as instructions.
pub open spec fn how_many(list: Seq<Seq<char>>, from: int, to: int) -> int
    decreases to - from,
{
    if from >= to {
        0
    } else {
        how_many(list, from, to - 1) + (if counts(list[to - 1]) {
            1int
        } else {
            0
        })
    }
}

/// Whether line `m` is instruction `index` of the function: it stands in the block behind the first
/// head of the function, before the head of another block, it counts as an instruction, and so many
/// lines before it in the block do.
pub open spec fn is_line_of(
    list: Seq<Seq<char>>,
    function: Seq<char>,
    context: Context,
    index: int,
    head: int,
    m: int,
) -> bool {
    &&& 0 <= head < m < list.len()
    &&& is_head_of(list[head], function, context)
    &&& forall|i: int| 0 <= i < head ==> !is_head_of(#[trigger] list[i], function, context)
    &&& forall|i: int| head < i <= m ==> !is_some_head(#[trigger] list[i])
    &&& counts(list[m])
    &&& how_many(list, head + 1, m) == index
}

proof fn lemma_how_many(list: Seq<Seq<char>>, from: int, to: int)
    requires
        from < to,
    ensures
        how_many(list, from, to) == how_many(list, from + 1, to) + (if counts(list[from]) {
            1int
        } else {
            0
        }),
        how_many(list, from + 1, to) >= 0,
    decreases to - from,
{
    if from + 1 < to {
        lemma_how_many(list, from, to - 1);
        if from + 1 < to - 1 {
            lemma_how_many(list, from + 1, to - 1);
        }
        assert(how_many(list, from + 1, to) == how_many(list, from + 1, to - 1) + (if counts(
            list[to - 1],
        ) {
            1int
        } else {
            0
        }));
    } else {
        assert(how_many(list, from, from) == 0);
        assert(how_many(list, from + 1, to) == 0);
    }
}

proof fn lemma_instruction_at(list: Seq<Seq<char>>, from: int, index: int, m: int)
    requires
        0 <= from <= m < list.len(),
        0 <= index,
        forall|i: int| from <= i <= m ==> !is_some_head(#[trigger] list[i]),
    ensures
        instruction_line(list, from, index) == Some(m) <==> counts(list[m]) && how_many(
            list,
            from,
            m,
        ) == index,
    decreases m - from,
{
    if from < m {
        lemma_how_many(list, from, m);
        if !counts(list[from]) {
            lemma_instruction_at(list, from + 1, index, m);
        } else if index > 0 {
            lemma_instruction_at(list, from + 1, index - 1, m);
        }
    } else {
        assert(how_many(list, from, m) == 0);
        if instruction_line(list, from, index) == Some(m) && index > 0 {
            lemma_instruction_line(list, from, index);
        }
        if counts(list[m]) && index > 0 && instruction_line(list, from + 1, index - 1) is Some {
            lemma_instruction_line(list, from + 1, index - 1);
        }
        if !counts(list[m]) && instruction_line(list, from + 1, index) is Some {
            lemma_instruction_line(list, from + 1, index);
        }
    }
}

proof fn lemma_no_head_before(
    list: Seq<Seq<char>>,
    function: Seq<char>,
    context: Context,
    from: int,
    head: int,
)
    requires
        0 <= from <= head < list.len(),
        is_head_of(list[head], function, context),
        forall|i: int| from <= i < head ==> !is_head_of(#[trigger] list[i], function, context),
    ensures
        block_head(list, function, context, from) == Some(head),
    decreases head - from,
{
    if from < head {
        lemma_no_head_before(list, function, context, from + 1, head);
    }
}

/// A line is located for an instruction exactly if it is that instruction's line. So every line of a
/// block that is neither blank nor an input nor an output is located, for the number of such lines
/// before it.
pub proof fn law_every_instruction_is_located(
    list: Seq<Seq<char>>,
    function: Seq<char>,
    context: Context,
    index: int,
    m: int,
)
    requires
        0 <= index,
    ensures
        bytecode_line(list, function, context, index) == Some(m) <==> exists|head: int|
            #[trigger] is_line_of(list, function, context, index, head, m),
{
    if bytecode_line(list, function, context, index) == Some(m) {
        lemma_block_head(list, function, context, 0);
        let head = block_head(list, function, context, 0)->0;
        lemma_instruction_line(list, head + 1, index);
        assert forall|i: int| head < i <= m implies !is_some_head(#[trigger] list[i]) by {}
        lemma_instruction_at(list, head + 1, index, m);
        assert(is_line_of(list, function, context, index, head, m));
    }
    if exists|head: int| #[trigger] is_line_of(list, function, context, index, head, m) {
        let head = choose|head: int| #[trigger]
            is_line_of(list, function, context, index, head, m);
        lemma_no_head_before(list, function, context, 0, head);
        lemma_instruction_at(list, head + 1, index, m);
    }
}

/// Whether program `p` is the one with the name: the first one that has it.
pub open spec fn is_named(programs: Seq<ProgramModel>, name: Seq<char>, p: int) -> bool {
    &&& 0 <= p < programs.len()
    &&& programs[p].name == name
    &&& forall|q: int| 0 <= q < p ==> (#[trigger] programs[q]).name != name
}

/// Whether no program has the name.
pub open spec fn is_unknown(programs: Seq<ProgramModel>, name: Seq<char>) -> bool {
    forall|q: int| 0 <= q < programs.len() ==> (#[trigger] programs[q]).name != name
}

/// The program that is found under a name is the first one that has it.
pub proof fn law_program_is_found_by_name(programs: Seq<ProgramModel>, name: Seq<char>, p: int)
    ensures
        program_index(programs, name, 0) == Some(p) <==> is_named(programs, name, p),
        program_index(programs, name, 0) is None <==> is_unknown(programs, name),
{
    lemma_named(programs, name, 0, p);
    lemma_program_index(programs, name, 0);
}

proof fn lemma_named(programs: Seq<ProgramModel>, name: Seq<char>, from: int, p: int)
    requires
        0 <= from,
    ensures
        program_index(programs, name, from) == Some(p) <==> from <= p < programs.len()
            && programs[p].name == name && (forall|q: int|
            from <= q < p ==> (#[trigger] programs[q]).name != name),
    decreases programs.len() - from,
{
    if from < programs.len() {
        lemma_named(programs, name, from + 1, p);
        if programs[from].name == name && from < p {
            assert(programs[from].name == name);
        }
    }
}

/// A number no less than zero.
pub open spec fn at_least_zero(n: int) -> int {
    if n < 0 {
        0
    } else {
        n
    }
}

/// The smaller one of two numbers.
pub open spec fn smaller(a: int, b: int) -> int {
    if a < b {
        a
    } else {
        b
    }
}

/// How far a text can be scrolled: until its last line is the last visible one. Scroll positions have
/// sixteen bits, and so what is more wraps around.
pub open spec fn furthest(len: int, height: u16) -> int {
    at_least_zero(len - height) % 0x10000
}

/// Where a text has to be scrolled to for a line to be in the middle of what is visible; what is more
/// than sixteen bits wraps around.
pub open spec fn middle(line: int, height: u16) -> int {
    at_least_zero(line - height as int / 2) % 0x10000
}

/// Whether a source line is shown with its number in at least five places and a bar before it.
pub open spec fn is_numbered(shown: Seq<char>, number: nat, line: Seq<char>) -> bool {
    let blanks = at_least_zero(5 - decimal(number).len());
    &&& blanks <= shown.len()
    &&& forall|i: int| 0 <= i < blanks ==> #[trigger] shown[i] == ' '
    &&& shown.skip(blanks) == decimal(number) + " | "@ + line
}

/// The source pane shows the whole source file of the last stop, each line with its number, and sets
/// off the line where execution is and no other. If it follows, that line is brought to the middle, as
/// far as the text goes; otherwise the pane stays where it was scrolled to.
pub proof fn law_source_pane_shows_the_source(
    app: AppView,
    height: u16,
    name: Option<Seq<char>>,
    p: int,
)
    requires
        app.last_stop is Some,
        app.last_stop->0.loc is Some,
        is_named(app.programs, app.last_stop->0.program, p),
        app.programs[p].sources.contains_key(app.last_stop->0.loc->0.file),
        app.programs[p].sources[app.last_stop->0.loc->0.file].len() <= usize::MAX,
    ensures
        ({
            let loc = app.last_stop->0.loc->0;
            let list = app.programs[p].sources[loc.file];
            let (after, content) = source_pane(app, height, name);
            let wanted = if app.source.follow {
                middle(at_least_zero(loc.line - 1), height)
            } else {
                app.source.scroll as int
            };
            &&& content.focused <==> app.focus == Pane::Source
            &&& content.body is Lines
            &&& content.body->Lines_0.len() == list.len()
            &&& forall|i: int|
                0 <= i < list.len() ==> {
                    &&& is_numbered(
                        (#[trigger] content.body->Lines_0[i]).0,
                        ((i + 1) % 0x1_0000_0000) as nat,
                        list[i],
                    )
                    &&& content.body->Lines_0[i].1 == LineStyle::Highlight <==> (i + 1)
                        % 0x1_0000_0000 == loc.line
                    &&& content.body->Lines_0[i].1 != LineStyle::Header
                }
            &&& content.body->1 == smaller(wanted, furthest(list.len() as int, height))
            &&& after.source.scroll == smaller(wanted, furthest(list.len() as int, height))
            &&& after.source.height == height
            &&& after.source.follow == app.source.follow
            &&& after.source_len == list.len()
            &&& content.title == (if app.programs[p].debug_info is None || loc.file
                >= app.programs[p].debug_info->0.source_files@.len() {
                "Leo source"@
            } else if name is Some {
                name->0
            } else {
                app.programs[p].debug_info->0.source_files@[loc.file as int]@
            })
        }),
{
    law_program_is_found_by_name(app.programs, app.last_stop->0.program, p);
    let loc = app.last_stop->0.loc->0;
    let list = app.programs[p].sources[loc.file];
    let (after, content) = source_pane(app, height, name);
    assert forall|i: int| 0 <= i < list.len() implies {
        &&& is_numbered(
            (#[trigger] content.body->Lines_0[i]).0,
            ((i + 1) % 0x1_0000_0000) as nat,
            list[i],
        )
        &&& content.body->Lines_0[i].1 == LineStyle::Highlight <==> (i + 1) % 0x1_0000_0000
            == loc.line
        &&& content.body->Lines_0[i].1 != LineStyle::Header
    } by {
        let shown = content.body->Lines_0[i].0;
        let digits = decimal(((i + 1) % 0x1_0000_0000) as nat);
        let blanks = at_least_zero(5 - digits.len());
        assert(shown.skip(blanks) =~= digits + " | "@ + list[i]);
    }
}

/// A source file that is not there to be shown leaves the source pane empty, at its start.
pub proof fn law_source_pane_without_the_file(
    app: AppView,
    height: u16,
    name: Option<Seq<char>>,
    p: int,
)
    requires
        app.last_stop is Some,
        app.last_stop->0.loc is Some,
        is_unknown(app.programs, app.last_stop->0.program) || (is_named(
            app.programs,
            app.last_stop->0.program,
            p,
        ) && !app.programs[p].sources.contains_key(app.last_stop->0.loc->0.file)),
    ensures
        ({
            let (after, content) = source_pane(app, height, name);
            &&& content.body is Lines
            &&& content.body->Lines_0.len() == 0
            &&& content.body->1 == 0
            &&& after.source_len == 0
        }),
{
    law_program_is_found_by_name(app.programs, app.last_stop->0.program, p);
}

/// The title of a pane stands behind a marker if the pane is in focus, and behind a blank otherwise.
pub proof fn law_titles(title: Seq<char>)
    ensures
        title_text(title, true) == "▸"@ + " "@ + title,
        title_text(title, false) == " "@ + " "@ + title,
{
}

/// A scroll position is held to the text.
pub proof fn law_scroll_is_held_to_the_text(scroll: int, len: int, height: u16)
    ensures
        clamped(scroll, len, height) == smaller(scroll, furthest(len, height)),
{
}

/// Without a stop, or without a source location, the source pane shows a remark.
pub proof fn law_source_pane_without_a_source(app: AppView, height: u16, name: Option<Seq<char>>)
    ensures
        app.last_stop is None ==> source_pane(app, height, name).1.body == BodyView::Note(
            "(not running)"@,
        ),
        app.last_stop is Some && app.last_stop->0.loc is None ==> source_pane(
            app,
            height,
            name,
        ).1.body == BodyView::Note(
            "(no source location for "@ + app.last_stop->0.program + "::"@
                + app.last_stop->0.function + " — synthetic scaffolding)"@,
        ),
        app.last_stop is None || app.last_stop->0.loc is None ==> source_pane(
            app,
            height,
            name,
        ).1.title == "Leo source"@,
{
}

/// The bytecode pane shows, below a line that says where execution is, the whole bytecode of the
/// program of the last stop, and sets off the line of the instruction and no other. If it follows,
/// that line is brought to the middle, as far as the text goes.
pub proof fn law_bytecode_pane_shows_the_bytecode(app: AppView, height: u16, p: int, m: int)
    requires
        app.last_stop is Some,
        is_named(app.programs, app.last_stop->0.program, p),
        app.programs[p].bytecode_lines.len() < usize::MAX,
    ensures
        ({
            let stop = app.last_stop->0;
            let list = app.programs[p].bytecode_lines;
            let (after, content) = bytecode_pane(app, height);
            let located = exists|head: int|
                #[trigger] is_line_of(
                    list,
                    stop.function,
                    stop.context,
                    stop.index as int,
                    head,
                    m,
                );
            &&& content.title == stop.program
            &&& content.focused <==> app.focus == Pane::Bytecode
            &&& content.body is Lines
            &&& content.body->Lines_0.len() == list.len() + 1
            &&& content.body->Lines_0[0] == (
                stop.program + "::"@ + stop.function + "  ["@ + (if stop.context
                    == Context::Transition {
                    "transition"@
                } else {
                    "finalize"@
                }) + " #"@ + decimal(stop.index as nat) + "]"@,
                LineStyle::Header,
            )
            &&& forall|i: int|
                0 <= i < list.len() ==> (#[trigger] content.body->Lines_0[i + 1]).0 == list[i]
            &&& 0 <= m < list.len() ==> (content.body->Lines_0[m + 1].1 == LineStyle::Highlight
                <==> located)
            &&& 0 <= m < list.len() && !located ==> content.body->Lines_0[m + 1].1
                == LineStyle::Plain
            &&& after.bytecode.height == height
            &&& after.bytecode.follow == app.bytecode.follow
            &&& after.bytecode_len == list.len() + 1
            &&& content.body->1 == after.bytecode.scroll
            &&& app.bytecode.follow && located ==> after.bytecode.scroll == smaller(
                middle((m + 1) % 0x1_0000_0000, height),
                furthest(list.len() as int + 1, height),
            )
            &&& !app.bytecode.follow ==> after.bytecode.scroll == smaller(
                app.bytecode.scroll as int,
                furthest(list.len() as int + 1, height),
            )
        }),
{
    let stop = app.last_stop->0;
    let list = app.programs[p].bytecode_lines;
    law_program_is_found_by_name(app.programs, stop.program, p);
    law_every_instruction_is_located(list, stop.function, stop.context, stop.index as int, m);
}

/// If no line is the instruction's, none is set off, and a pane that follows shows the start.
pub proof fn law_bytecode_pane_without_the_line(app: AppView, height: u16, p: int)
    requires
        app.last_stop is Some,
        is_named(app.programs, app.last_stop->0.program, p),
        app.programs[p].bytecode_lines.len() < usize::MAX,
        app.bytecode.follow,
        forall|head: int, m: int|
            !#[trigger] is_line_of(
                app.programs[p].bytecode_lines,
                app.last_stop->0.function,
                app.last_stop->0.context,
                app.last_stop->0.index as int,
                head,
                m,
            ),
    ensures
        bytecode_pane(app, height).0.bytecode.scroll == 0,
{
    let stop = app.last_stop->0;
    let list = app.programs[p].bytecode_lines;
    law_program_is_found_by_name(app.programs, stop.program, p);
    let found = bytecode_line(list, stop.function, stop.context, stop.index as int);
    if let Some(m) = found {
        law_every_instruction_is_located(list, stop.function, stop.context, stop.index as int, m);
    }
}

/// Without a stop, or without the program, the bytecode pane shows a remark.
pub proof fn law_bytecode_pane_without_a_program(app: AppView, height: u16)
    ensures
        app.last_stop is None ==> bytecode_pane(app, height).1.body == BodyView::Note(
            "(not running)"@,
        ) && bytecode_pane(app, height).1.title == "Aleo bytecode"@,
        app.last_stop is Some && is_unknown(app.programs, app.last_stop->0.program)
            ==> bytecode_pane(app, height).1.body == BodyView::Note("(program not loaded)"@)
            && bytecode_pane(app, height).1.title == app.last_stop->0.program,
{
    if app.last_stop is Some {
        law_program_is_found_by_name(app.programs, app.last_stop->0.program, 0);
    }
}

/// The console shows as many lines of its log as there is room for: the last ones if it follows,
/// otherwise those from where it was scrolled to, as far as the log goes.
pub proof fn law_console_shows_a_part_of_the_log(app: AppView, height: u16, i: int)
    ensures
        ({
            let (after, shown) = console_pane(app, height);
            let furthest = furthest(app.console.len() as int, height);
            let start = if app.log.follow {
                furthest
            } else {
                smaller(app.log.scroll as int, furthest)
            };
            &&& after.log.scroll == start
            &&& shown.len() == smaller(height as int, app.console.len() - start)
            &&& 0 <= i < shown.len() ==> shown[i] == app.console[start + i]
        }),
{
}

} // verus!
