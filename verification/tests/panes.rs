use indexmap::IndexMap;
use leo_debugger::debug_map::ProgramDebugMap;
use leo_debugger::hook::{Context, DebugEvent, Position, SourceLoc};
use leo_debugger::layout::{split_input_line, split_screen, split_title_bar, Area};
use leo_debugger::panes::{locate_bytecode_line, title_line, LineStyle, PaneBody, PaneContent};
use leo_debugger::session::ProgramSource;
use leo_debugger::tui::{App, Pane, Viewport};

const BYTECODE: &str = "program a.aleo;

function main:
    input r0 as u32.public;
    add r0 r0 into r1;

    call helper r1 into r2;
    output r2 as u32.public;

closure helper:
    input r0 as u32;
    mul r0 r0 into r1;
    output r1 as u32;

finalize main:
    input r0 as u32.public;
    set r0 into counts[0u32];

constructor:
    assert.eq true true;
";

fn bytecode_lines() -> Vec<String> {
    BYTECODE.lines().map(str::to_string).collect()
}

fn app() -> App {
    let map = ProgramDebugMap {
        source_files: vec!["src/main.leo".to_string(), "..".to_string()],
        functions: IndexMap::new(),
        closures: IndexMap::new(),
        finalizes: IndexMap::new(),
        views: IndexMap::new(),
        constructor: None,
    };
    App::new(vec![ProgramSource {
        name: "a.aleo".to_string(),
        bytecode: BYTECODE.to_string(),
        debug_info: Some(map),
    }])
}

fn stop(program: &str, loc: Option<SourceLoc>) -> DebugEvent {
    DebugEvent::Progress(Position {
        program: program.to_string(),
        function: "main".to_string(),
        context: Context::Transition,
        index: 1,
        text: String::new(),
        depth: 0,
        frames: Vec::new(),
        loc,
        registers: Vec::new(),
    })
}

fn at_line(line: u32) -> Option<SourceLoc> {
    Some(SourceLoc { file: 0, line, col: 1 })
}

/// An interface that has stopped at the line, with a source of that many lines.
fn stopped(line: u32, len: usize) -> App {
    let mut app = app();
    app.handle_event(stop("a.aleo", at_line(line)));
    let missing = app.missing_source().unwrap();
    let text: Vec<String> = (0..len).map(|n| format!("line {n}")).collect();
    app.store_source(&missing, Ok(text.join("\n")));
    app
}

fn note(content: PaneContent) -> String {
    match content.body {
        PaneBody::Note(text) => text,
        PaneBody::Lines(..) => panic!("no remark"),
    }
}

fn text(content: PaneContent) -> (Vec<(String, LineStyle)>, u16) {
    match content.body {
        PaneBody::Lines(lines, scroll) => {
            (lines.into_iter().map(|line| (line.text, line.style)).collect(), scroll)
        }
        PaneBody::Note(text) => panic!("only a remark: {text}"),
    }
}

#[test]
fn instructions_are_located_in_their_blocks() {
    let lines = bytecode_lines();
    let found = |function: &str, context: Context, index: usize| {
        locate_bytecode_line(&lines, function, context, index)
    };
    assert_eq!(found("main", Context::Transition, 0), Some(4));
    assert_eq!(found("main", Context::Transition, 1), Some(6));
    assert_eq!(found("main", Context::Transition, 2), None);
    assert_eq!(found("helper", Context::Transition, 0), Some(11));
    assert_eq!(found("main", Context::Finalize, 0), Some(16));
    assert_eq!(found("constructor", Context::Finalize, 0), Some(19));
    assert_eq!(found("constructor", Context::Finalize, 1), None);
    assert_eq!(found("constructor", Context::Transition, 0), None);
    assert_eq!(found("helper", Context::Finalize, 0), None);
    let odd = vec!["  function f:  ".to_string(), "input:".to_string()];
    assert_eq!(locate_bytecode_line(&odd, "f", Context::Transition, 0), None);
    let flat = vec!["function f:".to_string(), "add".to_string(), "inputs".to_string()];
    assert_eq!(locate_bytecode_line(&flat, "f", Context::Transition, 1), Some(2));
}

#[test]
fn titles_mark_the_focus() {
    assert_eq!(title_line("Console", true), "▸ Console");
    assert_eq!(title_line("Console", false), "  Console");
}

#[test]
fn nothing_is_shown_before_the_first_stop() {
    let mut app = app();
    let content = app.source_content(5, &None);
    assert_eq!(content.title, "Leo source");
    assert!(!content.focused);
    assert_eq!(note(content), "(not running)");
    assert_eq!((app.source.height, app.source_len), (5, 1));
    let content = app.bytecode_content(6);
    assert_eq!(content.title, "Aleo bytecode");
    assert_eq!(note(content), "(not running)");
    assert_eq!((app.bytecode.height, app.bytecode_len), (6, 1));
}

#[test]
fn an_instruction_without_a_source_is_said_to_have_none() {
    let mut app = app();
    app.handle_event(stop("a.aleo", None));
    let content = app.source_content(5, &None);
    assert_eq!(content.title, "Leo source");
    assert_eq!(
        note(content),
        "(no source location for a.aleo::main — synthetic scaffolding)"
    );
}

#[test]
fn a_program_that_is_not_loaded_has_no_bytecode() {
    let mut app = app();
    app.handle_event(stop("b.aleo", at_line(1)));
    let content = app.bytecode_content(5);
    assert_eq!(content.title, "b.aleo");
    assert_eq!(note(content), "(program not loaded)");
    let content = app.source_content(5, &Some("x".to_string()));
    assert_eq!(content.title, "Leo source");
    assert_eq!(text(content), (Vec::new(), 0));
    assert_eq!(app.source_len, 0);
}

#[test]
fn the_source_pane_shows_the_line_of_the_stop() {
    let mut app = stopped(12, 100);
    app.focus = Pane::Source;
    let content = app.source_content(10, &Some("main.leo".to_string()));
    assert_eq!(content.title, "main.leo");
    assert!(content.focused);
    let (lines, scroll) = text(content);
    assert_eq!(lines.len(), 100);
    assert_eq!(lines[0], ("    1 | line 0".to_string(), LineStyle::Plain));
    assert_eq!(lines[11], ("   12 | line 11".to_string(), LineStyle::Highlight));
    assert_eq!(lines[99], ("  100 | line 99".to_string(), LineStyle::Plain));
    assert_eq!(lines.iter().filter(|line| line.1 == LineStyle::Highlight).count(), 1);
    assert_eq!(scroll, 6);
    assert_eq!(app.source, Viewport { scroll: 6, follow: true, height: 10 });
    assert_eq!(app.source_len, 100);
    let mut app = stopped(99, 100);
    assert_eq!(text(app.source_content(10, &None)).1, 90);
    let mut app = stopped(2, 100);
    assert_eq!(text(app.source_content(10, &None)).1, 0);
    let mut app = stopped(0, 3);
    let content = app.source_content(10, &None);
    assert_eq!(content.title, "src/main.leo");
    assert_eq!(text(content).1, 0);
}

#[test]
fn a_pane_that_does_not_follow_stays_where_it_is() {
    let mut app = stopped(12, 100);
    app.source = Viewport { scroll: 40, follow: false, height: 1 };
    assert_eq!(text(app.source_content(10, &None)).1, 40);
    app.source.scroll = 95;
    assert_eq!(text(app.source_content(10, &None)).1, 90);
    app.bytecode = Viewport { scroll: 3, follow: false, height: 1 };
    assert_eq!(text(app.bytecode_content(4)).1, 3);
}

#[test]
fn a_long_source_wraps_its_scroll_position() {
    let mut app = stopped(70000, 70010);
    let (lines, scroll) = text(app.source_content(10, &None));
    assert_eq!(lines[69999].0, "70000 | line 69999");
    assert_eq!(scroll, ((69999 - 5) % 65536) as u16);
    let mut app = stopped(10, 65536 + 12);
    assert_eq!(text(app.source_content(10, &None)).1, 2);
}

#[test]
fn the_bytecode_pane_shows_the_instruction() {
    let mut app = stopped(12, 100);
    let content = app.bytecode_content(4);
    assert_eq!(content.title, "a.aleo");
    let (lines, scroll) = text(content);
    assert_eq!(lines[0], ("a.aleo::main  [transition #1]".to_string(), LineStyle::Header));
    assert_eq!(lines[1], ("program a.aleo;".to_string(), LineStyle::Plain));
    assert_eq!(lines[7], ("    call helper r1 into r2;".to_string(), LineStyle::Highlight));
    assert_eq!(lines.len(), 21);
    assert_eq!(app.bytecode_len, 21);
    assert_eq!(scroll, 5);
    let mut app = stopped(12, 100);
    app.last_stop.as_mut().unwrap().context = Context::Finalize;
    app.last_stop.as_mut().unwrap().index = 9;
    let (lines, scroll) = text(app.bytecode_content(4));
    assert_eq!(lines[0].0, "a.aleo::main  [finalize #9]");
    assert!(lines.iter().all(|line| line.1 != LineStyle::Highlight));
    assert_eq!(scroll, 0);
}

#[test]
fn the_console_shows_its_end() {
    let mut app = app();
    for n in 0..8 {
        app.console.push(n.to_string());
    }
    app.input = "b ma".to_string();
    let content = app.console_content(3);
    assert_eq!(content.title, "Console (help for commands)");
    assert!(content.focused);
    assert_eq!(content.log.join(","), "5,6,7");
    assert_eq!(content.prompt, "(leo-debug) b ma");
    assert_eq!(app.log, Viewport { scroll: 7, follow: true, height: 3 });
    app.log = Viewport { scroll: 2, follow: false, height: 3 };
    assert_eq!(app.console_content(3).log.join(","), "0,1,2");
    assert_eq!(app.console_content(50).log.len(), 10);
    assert_eq!(app.console_content(0).log.len(), 0);
}

#[test]
fn source_files_are_called_by_their_names() {
    let mut app = stopped(1, 1);
    assert_eq!(app.source_name(), Some("main.leo".to_string()));
    let known = Some("main.leo".to_string());
    assert_eq!(app.source_file_label("a.aleo", 0, &known), known);
    assert_eq!(app.source_file_label("a.aleo", 0, &None), Some("src/main.leo".to_string()));
    assert_eq!(app.source_file_label("a.aleo", 2, &known), None);
    assert_eq!(app.source_file_label("b.aleo", 0, &known), None);
    app.last_stop.as_mut().unwrap().loc = Some(SourceLoc { file: 1, line: 1, col: 1 });
    assert_eq!(app.source_name(), None);
}

#[test]
fn areas_are_split_from_top_to_bottom() {
    let area = Area { x: 2, y: 3, width: 80, height: 40 };
    let (source, bytecode, console) = split_screen(area);
    assert_eq!(source, Area { x: 2, y: 3, width: 80, height: 10 });
    assert_eq!(bytecode, Area { x: 2, y: 13, width: 80, height: 10 });
    assert_eq!(console, Area { x: 2, y: 23, width: 80, height: 20 });
    let (bar, body) = split_title_bar(console);
    assert_eq!(bar, Area { x: 2, y: 23, width: 80, height: 1 });
    assert_eq!(body, Area { x: 2, y: 24, width: 80, height: 19 });
    let (log, input) = split_input_line(body);
    assert_eq!(log, Area { x: 2, y: 24, width: 80, height: 18 });
    assert_eq!(input, Area { x: 2, y: 42, width: 80, height: 1 });
}

#[test]
fn the_whole_screen_is_drawn() {
    let mut app = stopped(12, 100);
    let screen = app.draw(Area { x: 0, y: 0, width: 80, height: 40 });
    assert_eq!(screen.source.bar.height, 1);
    assert_eq!(screen.source.body.height, 9);
    assert_eq!(screen.source.content.title, "main.leo");
    assert_eq!(screen.bytecode.content.title, "a.aleo");
    assert_eq!(screen.console.log.height, 18);
    assert_eq!(screen.console.content.log.len(), 2);
    assert_eq!(app.source.height, 9);
    assert_eq!(app.bytecode.height, 9);
    assert_eq!(app.log.height, 18);
    let pane = app.draw_source_pane(Area { x: 0, y: 0, width: 80, height: 4 });
    assert_eq!(pane.body.height, 3);
    let pane = app.draw_bytecode_pane(Area { x: 0, y: 0, width: 80, height: 4 });
    assert_eq!(pane.body.height, 3);
    let console = app.draw_console_pane(Area { x: 0, y: 0, width: 80, height: 4 });
    assert_eq!((console.bar.height, console.log.height, console.input.height), (1, 2, 1));
}

#[test]
fn drawing_changes_viewports_alone() {
    let mut app = stopped(12, 100);
    let console = app.console.clone();
    app.input = "typed".to_string();
    app.draw(Area { x: 0, y: 0, width: 80, height: 40 });
    assert_eq!(app.console, console);
    assert_eq!(app.input, "typed");
    assert_eq!(app.focus, Pane::Console);
    assert!(!app.finished && !app.quit);
    assert_eq!(app.program_view("a.aleo", 0).unwrap().len(), 100);
}

#[test]
fn rows_fill_their_area_from_the_top() {
    let heights = (0..130).chain([1000, 4095, 32767, 32769, 65533, 65534, 65535]);
    for height in heights {
        for y in [0, 7, 65500, 65535] {
            let area = Area { x: 1, y, width: 9, height };
            let lines = y.saturating_add(height) - y;
            let row = |y: u16, height: u16| Area { x: 1, y, width: 9, height };
            let one = lines.min(1);

            let (bar, body) = split_title_bar(area);
            assert_eq!(bar, row(y, one));
            assert_eq!(body, row(y + one, lines - one));

            let (log, input) = split_input_line(area);
            assert_eq!(log, row(y, lines - one));
            assert_eq!(input, row(y + lines - one, one));

            let quarter = ((lines as u32 + 2) / 4) as u16;
            let half = ((lines as u32 + 1) / 2) as u16;
            let (source, bytecode, console) = split_screen(area);
            assert_eq!(source, row(y, quarter));
            assert_eq!(bytecode, row(y + quarter, half - quarter));
            assert_eq!(console, row(y + half, lines - half));
        }
    }
}
