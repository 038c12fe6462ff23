use indexmap::IndexMap;
use leo_debugger::breakpoints::BreakpointKey;
use leo_debugger::debug_map::{DebugInstructions, DebugLoc, ProgramDebugMap};
use leo_debugger::hook::{
    Context, DebugCommand, DebugEvent, Frame, Phase, Position, SourceLoc,
};
use leo_debugger::session::ProgramSource;
use leo_debugger::tui::{
    clamp_scroll, parse_command, App, CommandAction, ConsoleCommand, Key, MissingSource, Pane,
    ScrollAmount, StopInfo, Viewport,
};

fn debug_map(files: &[&str]) -> ProgramDebugMap {
    let mut functions = IndexMap::new();
    functions.insert(
        "main".to_string(),
        DebugInstructions { instructions: vec![Some(DebugLoc { file: 0, line: 4, col: 1 })] },
    );
    ProgramDebugMap {
        source_files: files.iter().map(|s| s.to_string()).collect(),
        functions,
        closures: IndexMap::new(),
        finalizes: IndexMap::new(),
        views: IndexMap::new(),
        constructor: None,
    }
}

fn source(name: &str, bytecode: &str, debug_info: Option<ProgramDebugMap>) -> ProgramSource {
    ProgramSource { name: name.to_string(), bytecode: bytecode.to_string(), debug_info }
}

fn app() -> App {
    App::new(vec![source("a.aleo", "one\ntwo\n", Some(debug_map(&["src/main.leo"])))])
}

fn position(loc: Option<SourceLoc>) -> Position {
    Position {
        program: "a.aleo".to_string(),
        function: "main".to_string(),
        context: Context::Transition,
        index: 2,
        text: "add r0 r1 into r2;".to_string(),
        depth: 1,
        frames: vec![
            Frame {
                program_id: "outer.aleo".to_string(),
                function_name: "f".to_string(),
                is_dynamic: false,
            },
            Frame {
                program_id: "inner.aleo".to_string(),
                function_name: "g".to_string(),
                is_dynamic: true,
            },
        ],
        loc,
        registers: vec![(0, "1u8".to_string()), (3, "true".to_string())],
    }
}

fn here() -> Option<SourceLoc> {
    Some(SourceLoc { file: 0, line: 4, col: 9 })
}

fn last(app: &App) -> &str {
    app.console.last().unwrap()
}

fn type_line(app: &mut App, line: &str) -> Option<String> {
    for c in line.chars() {
        assert!(app.press(Key::Char(c), false).is_none());
    }
    app.press(Key::Enter, false)
}

#[test]
fn the_interface_starts_with_a_greeting() {
    let app = app();
    assert_eq!(
        app.console,
        vec![
            "leo debug — type 'help' for commands.".to_string(),
            "Running to the first breakpoint...".to_string(),
        ]
    );
    assert_eq!(app.focus, Pane::Console);
    assert_eq!(app.source, Viewport { scroll: 0, follow: true, height: 1 });
    assert!(!app.finished && !app.quit && app.last_stop.is_none());
    assert_eq!(app.programs[0].bytecode_lines, vec!["one".to_string(), "two".to_string()]);
}

#[test]
fn the_last_program_of_a_name_is_shown() {
    let app = App::new(vec![
        source("a.aleo", "old", None),
        source("b.aleo", "b", None),
        source("a.aleo", "new", None),
    ]);
    let shown: Vec<(&str, &str)> = app
        .programs
        .iter()
        .map(|p| (p.name.as_str(), p.bytecode_lines[0].as_str()))
        .collect();
    assert_eq!(shown, vec![("a.aleo", "new"), ("b.aleo", "b")]);
}

#[test]
fn panes_lie_in_a_circle() {
    for pane in [Pane::Source, Pane::Bytecode, Pane::Console] {
        assert_eq!(pane.next().prev(), pane);
        assert_eq!(pane.prev().next(), pane);
        assert_eq!(pane.next().next().next(), pane);
    }
    assert_eq!(Pane::Source.next(), Pane::Bytecode);
    assert_eq!(Pane::Bytecode.next(), Pane::Console);
    assert_eq!(Pane::Source.prev(), Pane::Console);
}

#[test]
fn events_are_told_on_the_console() {
    let mut app = app();
    app.source.follow = false;
    app.bytecode.follow = false;
    app.handle_event(DebugEvent::Stopped(position(here())));
    assert_eq!(last(&app), "(depth 1) a.aleo::main [2] add r0 r1 into r2; (4:9)");
    assert!(app.source.follow && app.bytecode.follow);
    app.handle_event(DebugEvent::Stopped(position(None)));
    assert_eq!(last(&app), "(depth 1) a.aleo::main [2] add r0 r1 into r2;");
    let said = app.console.len();
    app.handle_event(DebugEvent::Progress(position(here())));
    app.handle_event(DebugEvent::PhaseChange(Phase::Transition));
    assert_eq!(app.console.len(), said);
    assert_eq!(app.last_stop.as_ref().unwrap().loc, here());
    app.handle_event(DebugEvent::PhaseChange(Phase::Finalize));
    assert_eq!(last(&app), "--- entering finalize phase ---");
    assert!(!app.finished);
    app.handle_event(DebugEvent::Finished);
    assert_eq!(last(&app), "✅ Finished.");
    assert!(app.finished);
}

#[test]
fn a_halt_is_told_with_its_reason() {
    let mut app = app();
    app.handle_event(DebugEvent::Halted { reason: "quit".to_string() });
    assert_eq!(last(&app), "❌ Halted: quit");
    assert!(app.finished);
}

#[test]
fn a_stop_is_taken_from_a_position() {
    let stop = StopInfo::from(position(here()));
    assert_eq!(stop.program, "a.aleo");
    assert_eq!(stop.function, "main");
    assert_eq!(stop.context, Context::Transition);
    assert_eq!(stop.index, 2);
    assert_eq!(stop.frames.len(), 2);
    assert_eq!(stop.loc, here());
    assert_eq!(stop.registers.len(), 2);
}

#[test]
fn scroll_positions_are_held_to_the_text() {
    assert_eq!(clamp_scroll(10, 5, 3), 2);
    assert_eq!(clamp_scroll(1, 5, 3), 1);
    assert_eq!(clamp_scroll(7, 3, 5), 0);
    assert_eq!(clamp_scroll(65535, 65536 + 4, 3), 1);
}

#[test]
fn panes_are_scrolled() {
    let mut app = app();
    app.focus = Pane::Source;
    app.source = Viewport { scroll: 5, follow: true, height: 7 };
    app.source_len = 20;
    app.scroll_focused(ScrollAmount::LineDown);
    assert_eq!(app.source, Viewport { scroll: 6, follow: false, height: 7 });
    app.scroll_focused(ScrollAmount::LineUp);
    assert_eq!(app.source.scroll, 5);
    app.scroll_focused(ScrollAmount::HalfPageUp);
    assert_eq!(app.source.scroll, 2);
    app.scroll_focused(ScrollAmount::HalfPageUp);
    assert_eq!(app.source.scroll, 0);
    for _ in 0..9 {
        app.scroll_focused(ScrollAmount::HalfPageDown);
    }
    assert_eq!(app.source, Viewport { scroll: 13, follow: false, height: 7 });
    app.source.height = 1;
    app.source_len = 1;
    app.scroll_focused(ScrollAmount::HalfPageDown);
    assert_eq!(app.source.scroll, 0);
    app.focus = Pane::Bytecode;
    app.bytecode = Viewport { scroll: 65535, follow: true, height: 1 };
    app.bytecode_len = 65536;
    app.scroll_focused(ScrollAmount::HalfPageDown);
    assert_eq!(app.bytecode, Viewport { scroll: 65535, follow: false, height: 1 });
}

#[test]
fn the_console_follows_again_at_its_end() {
    let mut app = app();
    app.log = Viewport { scroll: 0, follow: true, height: 2 };
    for n in 0..3 {
        app.console.push(n.to_string());
    }
    app.scroll_focused(ScrollAmount::LineDown);
    assert_eq!(app.log, Viewport { scroll: 1, follow: false, height: 2 });
    app.scroll_focused(ScrollAmount::LineDown);
    app.scroll_focused(ScrollAmount::LineDown);
    assert_eq!(app.log, Viewport { scroll: 3, follow: true, height: 2 });
}

#[test]
fn keys_move_the_focus_and_scroll() {
    let mut app = app();
    app.press(Key::Char('j'), true);
    assert_eq!(app.focus, Pane::Source);
    app.press(Key::Char('k'), true);
    assert_eq!(app.focus, Pane::Console);
    app.press(Key::Char('k'), true);
    assert_eq!(app.focus, Pane::Bytecode);
    app.bytecode = Viewport { scroll: 4, follow: true, height: 4 };
    app.bytecode_len = 20;
    app.press(Key::Char('j'), false);
    assert_eq!(app.bytecode.scroll, 5);
    app.press(Key::Char('k'), false);
    assert_eq!(app.bytecode.scroll, 4);
    app.press(Key::Char('d'), true);
    assert_eq!(app.bytecode.scroll, 6);
    app.press(Key::Char('u'), true);
    assert_eq!(app.bytecode.scroll, 4);
    assert!(!app.bytecode.follow);
    app.press(Key::Esc, false);
    assert!(app.bytecode.follow);
    app.press(Key::Char('x'), false);
    app.press(Key::Char('d'), false);
    assert!(app.press(Key::Enter, false).is_none());
    app.input = "kept".to_string();
    app.press(Key::Backspace, false);
    app.press(Key::Other, false);
    assert_eq!(app.input, "kept");
    assert_eq!(app.bytecode.scroll, 4);
}

#[test]
fn the_console_takes_what_is_typed() {
    let mut app = app();
    for c in "jkü".chars() {
        app.press(Key::Char(c), false);
    }
    app.press(Key::Char('c'), true);
    assert_eq!(app.input, "jkü");
    app.press(Key::Backspace, false);
    assert_eq!(app.input, "jk");
    app.log.follow = false;
    assert_eq!(app.press(Key::Enter, true), Some("jk".to_string()));
    assert_eq!(app.input, "");
    assert_eq!(last(&app), "(leo-debug) jk");
    assert!(app.log.follow);
    app.press(Key::Backspace, false);
    let said = app.console.len();
    assert_eq!(type_line(&mut app, " \t "), None);
    assert_eq!(app.input, "");
    assert_eq!(app.console.len(), said);
}

#[test]
fn commands_have_two_names() {
    let step = |line: &str| match parse_command(line) {
        ConsoleCommand::Resume(command) => command,
        _ => panic!("no step: {line}"),
    };
    assert_eq!(step("continue"), DebugCommand::Continue);
    assert_eq!(step("c"), DebugCommand::Continue);
    assert_eq!(step(" step "), DebugCommand::StepInto);
    assert_eq!(step("s"), DebugCommand::StepInto);
    assert_eq!(step("next"), DebugCommand::StepOverLine);
    assert_eq!(step("n 3"), DebugCommand::StepOverLine);
    assert_eq!(step("stepi"), DebugCommand::StepInstr);
    assert_eq!(step("si"), DebugCommand::StepInstr);
    assert_eq!(step("nexti"), DebugCommand::NextInstr);
    assert_eq!(step("ni"), DebugCommand::NextInstr);
    assert!(matches!(parse_command("help"), ConsoleCommand::Help));
    assert!(matches!(parse_command("h"), ConsoleCommand::Help));
    assert!(matches!(parse_command("quit"), ConsoleCommand::Quit));
    assert!(matches!(parse_command("q"), ConsoleCommand::Quit));
    assert!(matches!(parse_command("backtrace"), ConsoleCommand::Backtrace));
    assert!(matches!(parse_command("bt"), ConsoleCommand::Backtrace));
    assert!(matches!(parse_command("break a:1 b:2"), ConsoleCommand::Break(Some(s)) if s == "a:1"));
    assert!(matches!(parse_command("b"), ConsoleCommand::Break(None)));
    assert!(matches!(parse_command("print r1"), ConsoleCommand::Print(Some(s)) if s == "r1"));
    assert!(matches!(parse_command("p"), ConsoleCommand::Print(None)));
    assert!(matches!(parse_command("Help"), ConsoleCommand::Unknown(s) if s == "Help"));
    assert!(matches!(parse_command("  "), ConsoleCommand::Nothing));
}

#[test]
fn steps_are_sent_until_the_session_is_over() {
    let mut app = app();
    let said = app.console.len();
    assert!(matches!(app.handle_command("s"), CommandAction::Send(DebugCommand::StepInto)));
    assert_eq!(app.console.len(), said);
    app.command_refused();
    assert_eq!(last(&app), "Session's command channel is closed.");
    app.handle_event(DebugEvent::Finished);
    for line in ["c", "s", "n", "si", "ni"] {
        assert!(matches!(app.handle_command(line), CommandAction::Nothing));
        assert_eq!(last(&app), "Session already finished.");
    }
    assert!(matches!(app.handle_command("q"), CommandAction::Quit));
    assert!(app.quit);
}

#[test]
fn help_lists_the_commands() {
    let mut app = app();
    assert!(matches!(app.handle_command("help"), CommandAction::Nothing));
    assert_eq!(
        last(&app),
        "break|b file:line, continue|c, step|s, next|n, stepi|si, nexti|ni, print|p <reg>, \
         backtrace|bt, quit|q | keys: C-j/C-k focus, C-u/C-d half-page, j/k line, Esc follow"
    );
    assert!(matches!(app.handle_command("jump"), CommandAction::Nothing));
    assert_eq!(last(&app), "Unknown command 'jump'. Type 'help' for a list.");
    let said = app.console.len();
    assert!(matches!(app.handle_command("   "), CommandAction::Nothing));
    assert_eq!(app.console.len(), said);
}

#[test]
fn breakpoints_are_set_from_the_console() {
    let mut app = app();
    let key = BreakpointKey {
        program: "a.aleo".to_string(),
        function: "main".to_string(),
        context: Context::Transition,
        index: 0,
    };
    for line in ["b main.leo:2", "break a.aleo:src/main.leo:4"] {
        match app.handle_command(line) {
            CommandAction::AddBreakpoint(found) => assert_eq!(found, key),
            _ => panic!("no breakpoint"),
        }
        assert_eq!(last(&app), "Breakpoint set at a.aleo::main [0].");
    }
    assert!(matches!(app.handle_command("b"), CommandAction::Nothing));
    assert_eq!(last(&app), "usage: break file:line | break program.aleo:file:line");
    assert!(matches!(app.handle_command("b main.leo:5"), CommandAction::Nothing));
    assert_eq!(
        last(&app),
        "Could not resolve breakpoint 'main.leo:5' against any loaded program's debug info"
    );
    let names = app.known_names();
    assert_eq!(names, vec![vec![Some("main.leo".to_string())]]);
    assert_eq!(app.resolve_breakpoint("main.leo:4", &names), Ok(key));
    assert_eq!(
        app.resolve_breakpoint("main.leo", &names).unwrap_err(),
        "Invalid breakpoint 'main.leo': expected 'file:line' or 'program.aleo:file:line'"
    );
    let action = app.run_command(ConsoleCommand::Break(Some("main.leo:x".to_string())), &names);
    assert!(matches!(action, CommandAction::Nothing));
    assert_eq!(last(&app), "Invalid line number in breakpoint 'main.leo:x'");
}

#[test]
fn a_backtrace_goes_from_the_inside_out() {
    let mut app = app();
    app.handle_command("bt");
    assert_eq!(last(&app), "Not currently stopped.");
    app.handle_event(DebugEvent::Progress(position(None)));
    app.handle_command("bt");
    let told = &app.console[app.console.len() - 3..];
    assert_eq!(told[0], "#0 inner.aleo::g (dynamic)");
    assert_eq!(told[1], "#1 outer.aleo::f");
    assert_eq!(told[2], "#2 a.aleo::main (current)");
}

#[test]
fn registers_are_printed() {
    let mut app = app();
    app.handle_command("p r0");
    assert_eq!(last(&app), "Not currently stopped.");
    app.handle_event(DebugEvent::Progress(position(None)));
    app.handle_command("p r3");
    assert_eq!(last(&app), "r3 = true");
    app.handle_command("p r+0");
    assert_eq!(last(&app), "r0 = 1u8");
    app.handle_command("p r7");
    assert_eq!(last(&app), "r7 is not assigned yet.");
    for line in ["p", "p x", "p r", "p rx", "p r18446744073709551616"] {
        let said = app.console.len();
        app.handle_command(line);
        assert_eq!(app.console[said..], ["r0 = 1u8".to_string(), "r3 = true".to_string()]);
    }
}

#[test]
fn sources_are_read_once() {
    let mut app = app();
    assert!(app.missing_source().is_none());
    app.handle_event(DebugEvent::Progress(position(None)));
    assert!(app.missing_source().is_none());
    app.handle_event(DebugEvent::Progress(position(here())));
    let missing = app.missing_source().unwrap();
    assert_eq!(missing.program, "a.aleo");
    assert_eq!((missing.file, missing.path.as_str()), (0, "src/main.leo"));
    assert!(app.program_view("a.aleo", 0).is_none());
    app.store_source(&missing, Ok("x\ny\r\nz".to_string()));
    assert!(app.missing_source().is_none());
    assert_eq!(app.program_view("a.aleo", 0).unwrap().join("|"), "x|y|z");
    let far = Some(SourceLoc { file: 1, line: 1, col: 1 });
    app.handle_event(DebugEvent::Progress(position(far)));
    assert!(app.missing_source().is_none());
}

#[test]
fn a_source_that_cannot_be_read_is_shown_as_such() {
    let mut app = app();
    app.handle_event(DebugEvent::Progress(position(here())));
    let missing = app.missing_source().unwrap();
    app.store_source(&missing, Err("no such file".to_string()));
    assert_eq!(
        app.program_view("a.aleo", 0).unwrap().join("|"),
        "(failed to read src/main.leo: no such file)"
    );
    let unknown = MissingSource {
        program: "b.aleo".to_string(),
        file: 0,
        path: "p".to_string(),
    };
    app.store_source(&unknown, Ok("text".to_string()));
    assert!(app.program_view("b.aleo", 0).is_none());
}

#[test]
fn the_console_only_grows() {
    let mut app = app();
    let mut before = app.console.clone();
    let events = [
        DebugEvent::Stopped(position(here())),
        DebugEvent::PhaseChange(Phase::Finalize),
        DebugEvent::Halted { reason: "quit".to_string() },
    ];
    for event in events {
        app.handle_event(event);
        assert!(app.console.starts_with(&before));
        before = app.console.clone();
    }
    for line in ["help", "c", "bt", "p", "b main.leo:1", "nonsense", "q"] {
        app.handle_command(line);
        assert!(app.console.starts_with(&before));
        assert!(app.finished);
        before = app.console.clone();
    }
}
