//! What events, keys and commands do to the interface.
use vstd::prelude::*;

use crate::hook::{DebugCommand, EventView, Phase, PositionView};
use crate::laws::drawing::{
    at_least_zero, furthest, is_named, is_unknown, law_program_is_found_by_name, smaller,
};
use crate::laws::reading::{is_blank, is_solid, law_first_word, law_no_words};
use crate::locate::breakpoint_for;
use crate::session::ProgramSource;
use crate::text::{decimal, line_list, number, trimmed, word_list};
use crate::tui::{
    after_command, after_event, after_key, backtrace, command_in, fresh_app, known_models,
    law_last_program_counts, loaded_programs, printed, program_index, read_lines, register_value,
    source_lines, source_path, stop_text, wanted_source, with_source, AppView, CommandActionView,
    ConsoleCommandView, Key, Pane, ProgramModel, Viewport,
};

verus! {

/// A line is the command that its first word names, whatever white space is around it; the next word
/// is the argument. Every command has a long and a short name, and any other word is reported.
pub proof fn law_first_word_is_the_command(before: Seq<char>, word: Seq<char>, behind: Seq<char>)
    requires
        is_blank(before),
        word.len() > 0,
        is_solid(word),
        behind.len() > 0 ==> crate::text::is_space(behind[0]),
    ensures
        ({
            let command = command_in(before + word + behind);
            let argument = if word_list(behind).len() > 0 {
                Some(word_list(behind)[0])
            } else {
                None
            };
            &&& word == "help"@ || word == "h"@ ==> command == ConsoleCommandView::Help
            &&& word == "continue"@ || word == "c"@ ==> command == ConsoleCommandView::Resume(
                DebugCommand::Continue,
            )
            &&& word == "step"@ || word == "s"@ ==> command == ConsoleCommandView::Resume(
                DebugCommand::StepInto,
            )
            &&& word == "next"@ || word == "n"@ ==> command == ConsoleCommandView::Resume(
                DebugCommand::StepOverLine,
            )
            &&& word == "stepi"@ || word == "si"@ ==> command == ConsoleCommandView::Resume(
                DebugCommand::StepInstr,
            )
            &&& word == "nexti"@ || word == "ni"@ ==> command == ConsoleCommandView::Resume(
                DebugCommand::NextInstr,
            )
            &&& word == "quit"@ || word == "q"@ ==> command == ConsoleCommandView::Quit
            &&& word == "break"@ || word == "b"@ ==> command == ConsoleCommandView::Break(argument)
            &&& word == "backtrace"@ || word == "bt"@ ==> command == ConsoleCommandView::Backtrace
            &&& word == "print"@ || word == "p"@ ==> command == ConsoleCommandView::Print(argument)
            &&& command == ConsoleCommandView::Unknown(word) <==> !(word == "help"@ || word == "h"@
                || word == "continue"@ || word == "c"@ || word == "step"@ || word == "s"@ || word
                == "next"@ || word == "n"@ || word == "stepi"@ || word == "si"@ || word == "nexti"@
                || word == "ni"@ || word == "quit"@ || word == "q"@ || word == "break"@ || word
                == "b"@ || word == "backtrace"@ || word == "bt"@ || word == "print"@ || word
                == "p"@)
        }),
{
    law_first_word(before, word, behind);
    let list = word_list(before + word + behind);
    assert(list[0] == word);
    if word_list(behind).len() > 0 {
        assert(list[1] == word_list(behind)[0]);
    }
    reveal_strlit("help");
    reveal_strlit("h");
    reveal_strlit("continue");
    reveal_strlit("c");
    reveal_strlit("step");
    reveal_strlit("s");
    reveal_strlit("next");
    reveal_strlit("n");
    reveal_strlit("stepi");
    reveal_strlit("si");
    reveal_strlit("nexti");
    reveal_strlit("ni");
    reveal_strlit("quit");
    reveal_strlit("q");
    reveal_strlit("break");
    reveal_strlit("b");
    reveal_strlit("backtrace");
    reveal_strlit("bt");
    reveal_strlit("print");
    reveal_strlit("p");
    assert("help"@.len() == 4 && "help"@[0] == 'h');
    assert("h"@.len() == 1 && "h"@[0] == 'h');
    assert("continue"@.len() == 8 && "continue"@[0] == 'c');
    assert("c"@.len() == 1 && "c"@[0] == 'c');
    assert("step"@.len() == 4 && "step"@[0] == 's');
    assert("s"@.len() == 1 && "s"@[0] == 's');
    assert("next"@.len() == 4 && "next"@[0] == 'n');
    assert("n"@.len() == 1 && "n"@[0] == 'n');
    assert("stepi"@.len() == 5 && "stepi"@[0] == 's');
    assert("si"@.len() == 2 && "si"@[0] == 's');
    assert("nexti"@.len() == 5 && "nexti"@[0] == 'n');
    assert("ni"@.len() == 2 && "ni"@[0] == 'n');
    assert("quit"@.len() == 4 && "quit"@[0] == 'q');
    assert("q"@.len() == 1 && "q"@[0] == 'q');
    assert("break"@.len() == 5 && "break"@[0] == 'b');
    assert("b"@.len() == 1 && "b"@[0] == 'b');
    assert("backtrace"@.len() == 9 && "backtrace"@[0] == 'b');
    assert("bt"@.len() == 2 && "bt"@[0] == 'b');
    assert("print"@.len() == 5 && "print"@[0] == 'p');
    assert("p"@.len() == 1 && "p"@[0] == 'p');
}

/// A blank line is no command.
pub proof fn law_blank_line_is_no_command(line: Seq<char>)
    requires
        is_blank(line),
    ensures
        command_in(line) == ConsoleCommandView::Nothing,
{
    law_no_words(line);
}

/// Whether nothing but the console has changed, and it has got these lines more, at its end.
pub open spec fn only_says(before: AppView, after: AppView, lines: Seq<Seq<char>>) -> bool {
    after == (AppView { console: before.console + lines, ..before })
}

/// A command that moves execution on is sent to the session, and changes nothing on the screen; if the
/// session is over, it is not sent, and that is said.
pub proof fn law_resuming(app: AppView, step: DebugCommand, tables: Seq<Seq<Option<Seq<char>>>>)
    ensures
        ({
            let (after, action) = after_command(app, ConsoleCommandView::Resume(step), tables);
            &&& !app.finished ==> after == app && action == CommandActionView::Send(step)
            &&& app.finished ==> only_says(app, after, seq!["Session already finished."@]) && action
                == CommandActionView::Nothing
        }),
{
    assert(app.console.push("Session already finished."@) =~= app.console
        + seq!["Session already finished."@]);
}

/// `quit` marks the interface as quitting and tells the session, and that is all.
pub proof fn law_quitting(app: AppView, tables: Seq<Seq<Option<Seq<char>>>>)
    ensures
        after_command(app, ConsoleCommandView::Quit, tables) == (
            (AppView { quit: true, ..app }),
            CommandActionView::Quit,
        ),
{
}

/// `break` sets the breakpoint that the text stands for among the loaded programs and says where it
/// is; if the text stands for none, the reason is said and nothing is set.
pub proof fn law_breaking(app: AppView, spec: Seq<char>, tables: Seq<Seq<Option<Seq<char>>>>)
    ensures
        ({
            let (after, action) = after_command(
                app,
                ConsoleCommandView::Break(Some(spec)),
                tables,
            );
            match breakpoint_for(spec, known_models(app.programs), tables) {
                Ok(key) => action == CommandActionView::AddBreakpoint(key) && only_says(
                    app,
                    after,
                    seq![
                        "Breakpoint set at "@ + key.program + "::"@ + key.function + " ["@
                            + decimal(key.index as nat) + "]."@,
                    ],
                ),
                Err(message) => action == CommandActionView::Nothing && only_says(
                    app,
                    after,
                    seq![message],
                ),
            }
        }),
        ({
            let (after, action) = after_command(app, ConsoleCommandView::Break(None), tables);
            action == CommandActionView::Nothing && only_says(
                app,
                after,
                seq!["usage: break file:line | break program.aleo:file:line"@],
            )
        }),
{
    let (after, action) = after_command(app, ConsoleCommandView::Break(Some(spec)), tables);
    assert(after.console =~= app.console + seq![after.console.last()]);
    let (other, none) = after_command(app, ConsoleCommandView::Break(None), tables);
    assert(other.console =~= app.console + seq![other.console.last()]);
}

/// `help`, an unknown word and nothing at all change only what the console says.
pub proof fn law_other_commands(app: AppView, word: Seq<char>, tables: Seq<Seq<Option<Seq<char>>>>)
    ensures
        after_command(app, ConsoleCommandView::Nothing, tables) == (
            app,
            CommandActionView::Nothing,
        ),
        ({
            let (after, action) = after_command(app, ConsoleCommandView::Help, tables);
            action == CommandActionView::Nothing && only_says(
                app,
                after,
                seq![
                    "break|b file:line, continue|c, step|s, next|n, stepi|si, nexti|ni, print|p <reg>, backtrace|bt, quit|q | keys: C-j/C-k focus, C-u/C-d half-page, j/k line, Esc follow"@,
                ],
            )
        }),
        ({
            let (after, action) = after_command(app, ConsoleCommandView::Unknown(word), tables);
            action == CommandActionView::Nothing && only_says(
                app,
                after,
                seq!["Unknown command '"@ + word + "'. Type 'help' for a list."@],
            )
        }),
{
    let help = after_command(app, ConsoleCommandView::Help, tables).0;
    assert(help.console =~= app.console + seq![help.console.last()]);
    let unknown = after_command(app, ConsoleCommandView::Unknown(word), tables).0;
    assert(unknown.console =~= app.console + seq![unknown.console.last()]);
}

/// `backtrace` lists the callers, the innermost frame first, numbered from zero, and last the function
/// that is executed, with the next number.
pub proof fn law_backtrace(app: AppView, tables: Seq<Seq<Option<Seq<char>>>>, i: int)
    requires
        app.last_stop is Some,
    ensures
        ({
            let stop = app.last_stop->0;
            let n = stop.frames.len() as int;
            let (after, action) = after_command(app, ConsoleCommandView::Backtrace, tables);
            let list = after.console.skip(app.console.len() as int);
            &&& action == CommandActionView::Nothing
            &&& only_says(app, after, list)
            &&& list.len() == n + 1
            &&& 0 <= i < n && stop.frames[n - 1 - i].is_dynamic ==> list[i] == "#"@ + decimal(
                i as nat,
            ) + " "@ + stop.frames[n - 1 - i].program_id + "::"@ + stop.frames[n - 1
                - i].function_name + " (dynamic)"@
            &&& 0 <= i < n && !stop.frames[n - 1 - i].is_dynamic ==> list[i] == "#"@ + decimal(
                i as nat,
            ) + " "@ + stop.frames[n - 1 - i].program_id + "::"@ + stop.frames[n - 1
                - i].function_name
            &&& list[n] == "#"@ + decimal(n as nat) + " "@ + stop.program + "::"@ + stop.function
                + " (current)"@
        }),
{
    let stop = app.last_stop->0;
    let n = stop.frames.len() as int;
    let (after, action) = after_command(app, ConsoleCommandView::Backtrace, tables);
    let list = after.console.skip(app.console.len() as int);
    assert(list =~= backtrace(stop));
    if 0 <= i < n && !stop.frames[n - 1 - i].is_dynamic {
        let text = "#"@ + decimal(i as nat) + " "@ + stop.frames[n - 1 - i].program_id + "::"@
            + stop.frames[n - 1 - i].function_name;
        assert(text + Seq::<char>::empty() =~= text);
    }
}

/// Before the first stop there is nothing to trace or to print, and that is said.
pub proof fn law_nothing_to_show_before_a_stop(
    app: AppView,
    what: Option<Seq<char>>,
    tables: Seq<Seq<Option<Seq<char>>>>,
)
    requires
        app.last_stop is None,
    ensures
        ({
            let (after, action) = after_command(app, ConsoleCommandView::Backtrace, tables);
            action == CommandActionView::Nothing && only_says(
                app,
                after,
                seq!["Not currently stopped."@],
            )
        }),
        ({
            let (after, action) = after_command(app, ConsoleCommandView::Print(what), tables);
            action == CommandActionView::Nothing && only_says(
                app,
                after,
                seq!["Not currently stopped."@],
            )
        }),
{
    assert(app.console.push("Not currently stopped."@) =~= app.console
        + seq!["Not currently stopped."@]);
}

proof fn lemma_register_value(
    registers: Seq<(u64, Seq<char>)>,
    register: nat,
    from: int,
    i: int,
)
    requires
        0 <= from,
    ensures
        from <= i < registers.len() && registers[i].0 == register && (forall|j: int|
            from <= j < i ==> (#[trigger] registers[j]).0 != register) ==> register_value(
            registers,
            register,
            from,
        ) == Some(registers[i].1),
        (forall|j: int| from <= j < registers.len() ==> (#[trigger] registers[j]).0 != register)
            ==> register_value(registers, register, from) is None,
    decreases registers.len() - from,
{
    if from < registers.len() && registers[from].0 != register {
        lemma_register_value(registers, register, from + 1, i);
    }
}

/// `print` with an `r` and a number shows the value of that register, or that it has none yet.
pub proof fn law_printing_a_register(
    app: AppView,
    digits: Seq<char>,
    n: u64,
    i: int,
    tables: Seq<Seq<Option<Seq<char>>>>,
)
    requires
        app.last_stop is Some,
        number(digits, u64::MAX as nat) == Some(n as nat),
    ensures
        ({
            let registers = app.last_stop->0.registers;
            let (after, action) = after_command(
                app,
                ConsoleCommandView::Print(Some("r"@ + digits)),
                tables,
            );
            &&& action == CommandActionView::Nothing
            &&& 0 <= i < registers.len() && registers[i].0 == n && (forall|j: int|
                0 <= j < i ==> (#[trigger] registers[j]).0 != n) ==> only_says(
                app,
                after,
                seq!["r"@ + decimal(n as nat) + " = "@ + registers[i].1],
            )
            &&& (forall|j: int| 0 <= j < registers.len() ==> (#[trigger] registers[j]).0 != n)
                ==> only_says(
                app,
                after,
                seq!["r"@ + decimal(n as nat) + " is not assigned yet."@],
            )
        }),
{
    reveal_strlit("r");
    let word = "r"@ + digits;
    assert(word.skip(1) =~= digits);
    lemma_register_value(app.last_stop->0.registers, n as nat, 0, i);
}

/// `print` alone, or with anything that is no register, shows all the registers in their order.
pub proof fn law_printing_everything(
    app: AppView,
    what: Option<Seq<char>>,
    i: int,
    tables: Seq<Seq<Option<Seq<char>>>>,
)
    requires
        app.last_stop is Some,
        what is None || what->0.len() == 0 || what->0[0] != 'r' || number(
            what->0.skip(1),
            u64::MAX as nat,
        ) is None,
    ensures
        ({
            let registers = app.last_stop->0.registers;
            let (after, action) = after_command(app, ConsoleCommandView::Print(what), tables);
            let list = after.console.skip(app.console.len() as int);
            &&& action == CommandActionView::Nothing
            &&& only_says(app, after, list)
            &&& list.len() == registers.len()
            &&& 0 <= i < registers.len() ==> list[i] == "r"@ + decimal(registers[i].0 as nat)
                + " = "@ + registers[i].1
        }),
{
    let (after, action) = after_command(app, ConsoleCommandView::Print(what), tables);
    assert(after.console.skip(app.console.len() as int) =~= printed(app.last_stop->0, what));
}

/// Whether the interface has come to the position: it is where execution was last seen, and both panes
/// above the console follow.
pub open spec fn is_at(before: AppView, after: AppView, position: PositionView) -> bool {
    &&& after.last_stop is Some
    &&& ({
        let stop = after.last_stop->0;
        &&& stop.program == position.program
        &&& stop.function == position.function
        &&& stop.context == position.context
        &&& stop.index == position.index
        &&& stop.frames == position.frames
        &&& stop.loc == position.loc
        &&& stop.registers == position.registers
    })
    &&& after == (AppView {
        console: after.console,
        last_stop: after.last_stop,
        source: Viewport { follow: true, ..before.source },
        bytecode: Viewport { follow: true, ..before.bytecode },
        ..before
    })
}

/// A stop is shown where it is and said in one line; progress is shown and not said; the beginning of
/// the finalize phase is said; the end of the session is said with its reason, and marks the session
/// as over.
pub proof fn law_events(app: AppView, position: PositionView, reason: Seq<char>)
    ensures
        ({
            let after = after_event(app, EventView::Stopped(position));
            let line = "(depth "@ + decimal(position.depth as nat) + ") "@ + position.program
                + "::"@ + position.function + " ["@ + decimal(position.index as nat) + "] "@
                + position.text;
            &&& is_at(app, after, position)
            &&& position.loc is None ==> after.console == app.console.push(line)
            &&& position.loc is Some ==> after.console == app.console.push(
                line + (" ("@ + decimal(position.loc->0.line as nat) + ":"@ + decimal(
                    position.loc->0.col as nat,
                ) + ")"@),
            )
        }),
        is_at(app, after_event(app, EventView::Progress(position)), position),
        after_event(app, EventView::Progress(position)).console == app.console,
        after_event(app, EventView::PhaseChange(Phase::Transition)) == app,
        only_says(
            app,
            after_event(app, EventView::PhaseChange(Phase::Finalize)),
            seq!["--- entering finalize phase ---"@],
        ),
        ({
            let after = after_event(app, EventView::Finished);
            after.finished && only_says(
                AppView { finished: true, ..app },
                after,
                seq!["✅ Finished."@],
            )
        }),
        ({
            let after = after_event(app, EventView::Halted { reason });
            after.finished && only_says(
                AppView { finished: true, ..app },
                after,
                seq!["❌ Halted: "@ + reason],
            )
        }),
{
    if position.loc is None {
        assert(stop_text(position) =~= "(depth "@ + decimal(position.depth as nat) + ") "@
            + position.program + "::"@ + position.function + " ["@ + decimal(position.index as nat)
            + "] "@ + position.text);
    }
    assert(app.console.push("--- entering finalize phase ---"@) =~= app.console
        + seq!["--- entering finalize phase ---"@]);
    assert(app.console.push("✅ Finished."@) =~= app.console + seq!["✅ Finished."@]);
    assert(app.console.push("❌ Halted: "@ + reason) =~= app.console + seq!["❌ Halted: "@
        + reason]);
}

/// What is typed into the console stands at the end of the input, and taking it back leads to the input
/// as it was.
pub proof fn law_typing(app: AppView, c: char)
    requires
        app.focus == Pane::Console,
    ensures
        ({
            let (typed, line) = after_key(app, Key::Char(c), false);
            &&& line is None
            &&& typed == (AppView { input: app.input.push(c), ..app })
            &&& after_key(typed, Key::Backspace, false) == (app, None::<Seq<char>>)
            &&& after_key(typed, Key::Backspace, true) == (app, None::<Seq<char>>)
        }),
        app.input.len() == 0 ==> after_key(app, Key::Backspace, false) == (app, None::<Seq<char>>),
{
    assert(app.input.push(c).drop_last() =~= app.input);
}

/// Entering gives out the input as it is and repeats it on the console, which follows again; a blank
/// input is dropped. Either way the input is empty then.
pub proof fn law_entering(app: AppView, ctrl: bool)
    requires
        app.focus == Pane::Console,
    ensures
        ({
            let (after, line) = after_key(app, Key::Enter, ctrl);
            &&& after.input.len() == 0
            &&& is_blank(app.input) ==> line is None && after == (AppView {
                input: after.input,
                ..app
            })
            &&& !is_blank(app.input) ==> line == Some(app.input) && after == (AppView {
                input: after.input,
                console: app.console.push("(leo-debug) "@ + app.input),
                log: Viewport { follow: true, ..app.log },
                ..app
            })
        }),
{
    if is_blank(app.input) {
        assert(Seq::<char>::empty() + Seq::<char>::empty() =~= Seq::<char>::empty());
        crate::laws::reading::law_trimming(app.input, Seq::empty(), Seq::empty());
        assert(app.input + Seq::<char>::empty() + Seq::<char>::empty() =~= app.input);
    } else {
        lemma_not_blank(app.input);
    }
}

proof fn lemma_not_blank(s: Seq<char>)
    requires
        !is_blank(s),
    ensures
        trimmed(s).len() > 0,
{
    let i = choose|i: int| 0 <= i < s.len() && !crate::text::is_space(#[trigger] s[i]);
    lemma_start_keeps(s, i);
    let start = crate::text::trim_start(s);
    let j = choose|j: int| 0 <= j < start.len() && start[j] == s[i];
    lemma_end_keeps(start, j);
}

proof fn lemma_start_keeps(s: Seq<char>, i: int)
    requires
        0 <= i < s.len(),
        !crate::text::is_space(s[i]),
    ensures
        exists|j: int|
            0 <= j < crate::text::trim_start(s).len() && crate::text::trim_start(s)[j] == s[i],
    decreases s.len(),
{
    if crate::text::is_space(s[0]) {
        let rest = s.skip(1);
        assert(rest[i - 1] == s[i]);
        lemma_start_keeps(rest, i - 1);
        let j = choose|j: int|
            0 <= j < crate::text::trim_start(rest).len() && crate::text::trim_start(rest)[j]
                == rest[i - 1];
        assert(crate::text::trim_start(s)[j] == s[i]);
    } else {
        assert(crate::text::trim_start(s)[i] == s[i]);
    }
}

proof fn lemma_end_keeps(s: Seq<char>, i: int)
    requires
        0 <= i < s.len(),
        !crate::text::is_space(s[i]),
    ensures
        crate::text::trim_end(s).len() > 0,
    decreases s.len(),
{
    if crate::text::is_space(s.last()) {
        assert(s.drop_last()[i] == s[i]);
        lemma_end_keeps(s.drop_last(), i);
    }
}

/// With the control key `j` moves the focus to the pane below and `k` to the pane above, in a circle,
/// and nothing else changes.
pub proof fn law_moving_the_focus(app: AppView)
    ensures
        ({
            let (after, line) = after_key(app, Key::Char('j'), true);
            &&& line is None
            &&& after == (AppView { focus: after.focus, ..app })
            &&& app.focus == Pane::Source ==> after.focus == Pane::Bytecode
            &&& app.focus == Pane::Bytecode ==> after.focus == Pane::Console
            &&& app.focus == Pane::Console ==> after.focus == Pane::Source
        }),
        ({
            let (after, line) = after_key(app, Key::Char('k'), true);
            &&& line is None
            &&& after == (AppView { focus: after.focus, ..app })
            &&& app.focus == Pane::Source ==> after.focus == Pane::Console
            &&& app.focus == Pane::Bytecode ==> after.focus == Pane::Source
            &&& app.focus == Pane::Console ==> after.focus == Pane::Bytecode
        }),
{
}

/// Whether a viewport has been scrolled by so many lines, as far as the text goes. Then it does not
/// follow its subject any more, except for the console at its end.
pub open spec fn is_scrolled(
    before: Viewport,
    after: Viewport,
    lines: int,
    len: int,
    console: bool,
) -> bool {
    let furthest = furthest(len, before.height);
    &&& after.scroll == smaller(at_least_zero(before.scroll + lines), furthest)
    &&& after.height == before.height
    &&& after.follow <==> console && after.scroll == furthest
}

/// Half a page, but at least one line.
pub open spec fn half_page(height: u16) -> int {
    if height <= 3 {
        1
    } else {
        height as int / 2
    }
}

/// How many lines a key scrolls down; up, if it is less than zero.
pub open spec fn lines_for(c: char, height: u16) -> int {
    if c == 'u' {
        -half_page(height)
    } else if c == 'd' {
        half_page(height)
    } else if c == 'j' {
        1
    } else {
        -1
    }
}

/// With the control key `u` and `d` scroll the pane in focus by half a page up and down; without it
/// `k` and `j` scroll it by a line, unless it is the console, which takes them as typed.
pub proof fn law_scrolling_keys(app: AppView, c: char)
    requires
        c == 'u' || c == 'd' || c == 'j' || c == 'k',
    ensures
        ({
            let ctrl = c == 'u' || c == 'd';
            let (after, line) = after_key(app, Key::Char(c), ctrl);
            &&& line is None
            &&& app.focus == Pane::Source ==> is_scrolled(
                app.source,
                after.source,
                lines_for(c, app.source.height),
                app.source_len as int,
                false,
            ) && after == (AppView { source: after.source, ..app })
            &&& app.focus == Pane::Bytecode ==> is_scrolled(
                app.bytecode,
                after.bytecode,
                lines_for(c, app.bytecode.height),
                app.bytecode_len as int,
                false,
            ) && after == (AppView { bytecode: after.bytecode, ..app })
            &&& app.focus == Pane::Console && ctrl ==> is_scrolled(
                app.log,
                after.log,
                lines_for(c, app.log.height),
                app.console.len() as int,
                true,
            ) && after == (AppView { log: after.log, ..app })
        }),
{
}

/// The escape key makes the pane in focus follow its subject again.
pub proof fn law_escape_follows(app: AppView, ctrl: bool)
    ensures
        ({
            let (after, line) = after_key(app, Key::Esc, ctrl);
            &&& line is None
            &&& after == (AppView {
                source: Viewport {
                    follow: app.source.follow || app.focus == Pane::Source,
                    ..app.source
                },
                bytecode: Viewport {
                    follow: app.bytecode.follow || app.focus == Pane::Bytecode,
                    ..app.bytecode
                },
                log: Viewport { follow: app.log.follow || app.focus == Pane::Console, ..app.log },
                ..app
            })
        }),
{
}

/// Every other key does nothing: unknown keys, other letters with the control key, and letters,
/// `Enter` and `Backspace` above the console.
pub proof fn law_other_keys_do_nothing(app: AppView, c: char, ctrl: bool)
    ensures
        after_key(app, Key::Other, ctrl) == (app, None::<Seq<char>>),
        c != 'j' && c != 'k' && c != 'u' && c != 'd' ==> after_key(app, Key::Char(c), true) == (
            app,
            None::<Seq<char>>,
        ),
        app.focus != Pane::Console && c != 'j' && c != 'k' ==> after_key(app, Key::Char(c), false)
            == (app, None::<Seq<char>>),
        app.focus != Pane::Console ==> after_key(app, Key::Enter, ctrl) == (app, None::<Seq<char>>)
            && after_key(app, Key::Backspace, ctrl) == (app, None::<Seq<char>>),
{
}

/// The interface starts in the console, with nothing typed, no stop, every pane at its start and
/// following, and says that the call is running.
pub proof fn law_fresh_interface(programs: Seq<ProgramModel>)
    ensures
        ({
            let app = fresh_app(programs);
            &&& app.programs == programs
            &&& app.console.len() == 2
            &&& app.console[0] == "leo debug — type 'help' for commands."@
            &&& app.console[1] == "Running to the first breakpoint..."@
            &&& app.input.len() == 0
            &&& app.last_stop is None
            &&& !app.finished
            &&& !app.quit
            &&& app.focus == Pane::Console
            &&& app.source == (Viewport { scroll: 0, follow: true, height: 1 })
            &&& app.bytecode == app.source
            &&& app.log == app.source
        }),
{
}

/// Every program is loaded with the lines of its bytecode and its debug map, and none of its source
/// files has been read yet; of two programs with one name the later one counts.
pub proof fn law_programs_are_loaded(programs: Seq<ProgramSource>, k: int)
    requires
        0 <= k < programs.len(),
        forall|j: int|
            k < j < programs.len() ==> (#[trigger] programs[j]).name@ != programs[k].name@,
    ensures
        ({
            let loaded = loaded_programs(programs, programs.len() as int);
            exists|p: int|
                {
                    &&& #[trigger] is_named(loaded, programs[k].name@, p)
                    &&& loaded[p].bytecode_lines == line_list(programs[k].bytecode@)
                    &&& loaded[p].debug_info == programs[k].debug_info
                    &&& forall|file: usize| !#[trigger] loaded[p].sources.contains_key(file)
                }
        }),
{
    let loaded = loaded_programs(programs, programs.len() as int);
    law_last_program_counts(programs, programs.len() as int, k);
    let p = program_index(loaded, programs[k].name@, 0)->0;
    law_program_is_found_by_name(loaded, programs[k].name@, p);
}

/// The source file of the last stop is asked for exactly if its program is loaded, has a path for it,
/// and it has not been read; what is asked for is that file, at that path.
pub proof fn law_missing_source_is_asked_for(app: AppView, p: int)
    ensures
        app.last_stop is None || app.last_stop->0.loc is None || is_unknown(
            app.programs,
            app.last_stop->0.program,
        ) ==> wanted_source(app) is None,
        app.last_stop is Some && app.last_stop->0.loc is Some && is_named(
            app.programs,
            app.last_stop->0.program,
            p,
        ) ==> {
            let stop = app.last_stop->0;
            let file = stop.loc->0.file;
            let program = app.programs[p];
            if !program.sources.contains_key(file) && program.debug_info is Some && file
                < program.debug_info->0.source_files@.len() {
                &&& wanted_source(app) is Some
                &&& wanted_source(app)->0.program == stop.program
                &&& wanted_source(app)->0.file == file
                &&& wanted_source(app)->0.path
                    == program.debug_info->0.source_files@[file as int]@
            } else {
                wanted_source(app) is None
            }
        },
{
    if app.last_stop is Some {
        law_program_is_found_by_name(app.programs, app.last_stop->0.program, p);
    }
}

/// A source file that was read is shown by its lines; one that could not be read is shown by a line
/// that says so.
pub proof fn law_what_was_read_is_shown(path: Seq<char>, text: Seq<char>, reason: Seq<char>)
    ensures
        read_lines(path, Ok(text)) == line_list(text),
        read_lines(path, Err(reason)) == seq![
            "(failed to read "@ + path + ": "@ + reason + ")"@,
        ],
{
}

/// What was read for a program that is not loaded is not kept.
pub proof fn law_sources_need_a_program(
    programs: Seq<ProgramModel>,
    program: Seq<char>,
    file: usize,
    list: Seq<Seq<char>>,
)
    requires
        is_unknown(programs, program),
    ensures
        with_source(programs, program, file, list) == programs,
        source_lines(programs, program, file) is None,
        source_path(programs, program, file) is None,
{
    law_program_is_found_by_name(programs, program, 0);
}

/// What was read for a program becomes the lines of that file of it, and changes nothing else.
pub proof fn law_source_is_stored(
    programs: Seq<ProgramModel>,
    program: Seq<char>,
    file: usize,
    list: Seq<Seq<char>>,
    p: int,
    q: int,
)
    requires
        is_named(programs, program, p),
        0 <= q < programs.len(),
    ensures
        ({
            let after = with_source(programs, program, file, list);
            &&& after.len() == programs.len()
            &&& q != p ==> after[q] == programs[q]
            &&& after[p].sources == programs[p].sources.insert(file, list)
            &&& after[p].name == programs[p].name
            &&& after[p].bytecode_lines == programs[p].bytecode_lines
            &&& after[p].debug_info == programs[p].debug_info
        }),
        source_lines(programs, program, file) == (if programs[p].sources.contains_key(file) {
            Some(programs[p].sources[file])
        } else {
            None
        }),
        source_path(programs, program, file) == (if programs[p].debug_info is Some && file
            < programs[p].debug_info->0.source_files@.len() {
            Some(programs[p].debug_info->0.source_files@[file as int]@)
        } else {
            None
        }),
{
    law_program_is_found_by_name(programs, program, p);
}

} // verus!
