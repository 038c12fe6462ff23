//! The state of the terminal interface: what events, keys and commands do to it.
use std::collections::HashMap;
use vstd::prelude::*;

use crate::breakpoints::{BreakpointKey, KeyView};
use crate::debug_map::ProgramDebugMap;
use crate::hook::{
    frame_views, register_views, Context, DebugCommand, DebugEvent, EventView, Frame, FrameView,
    Phase, Position, PositionView, SourceLoc,
};
use crate::locate::{
    are_name_tables, are_tables_for, breakpoint_for, breakpoint_result, known_in, known_programs,
    known_views, listings, name_tables, resolve_known, table_views, KnownProgram, Listed,
};
use crate::session::ProgramSource;
use crate::text::{
    decimal, decimal_text, line_list, lines, number, optional_text, parse_u64, result_text, same,
    starts_with, texts, trim, trimmed, word_list, words,
};

verus! {

broadcast use vstd::std_specs::hash::group_hash_axioms;

/// A loaded program as it is shown: its bytecode by lines, and the lines of those of its source files
/// that have been read so far.
pub struct ProgramView {
    pub name: String,
    pub bytecode_lines: Vec<String>,
    pub debug_info: Option<ProgramDebugMap>,
    pub source_cache: HashMap<usize, Vec<String>>,
}

/// What a `ProgramView` says.
#[verifier::ext_equal]
pub struct ProgramModel {
    pub name: Seq<char>,
    pub bytecode_lines: Seq<Seq<char>>,
    pub debug_info: Option<ProgramDebugMap>,
    pub sources: Map<usize, Seq<Seq<char>>>,
}

/// The texts of a list of lines, as a function.
pub open spec fn line_texts() -> spec_fn(Vec<String>) -> Seq<Seq<char>> {
    |list: Vec<String>| texts(list@)
}

impl View for ProgramView {
    type V = ProgramModel;

    open spec fn view(&self) -> ProgramModel {
        ProgramModel {
            name: self.name@,
            bytecode_lines: texts(self.bytecode_lines@),
            debug_info: self.debug_info,
            sources: self.source_cache@.map_values(line_texts()),
        }
    }
}

/// What the views of the programs say.
pub open spec fn program_models(views: Seq<ProgramView>) -> Seq<ProgramModel> {
    Seq::new(views.len(), |i: int| views[i]@)
}

/// The first program, from index `from` on, that has the name.
pub open spec fn program_index(
    programs: Seq<ProgramModel>,
    name: Seq<char>,
    from: int,
) -> Option<int>
    decreases programs.len() - from,
{
    if from >= programs.len() {
        None
    } else if programs[from].name == name {
        Some(from)
    } else {
        program_index(programs, name, from + 1)
    }
}

/// The programs with one more; it takes the place of a program with the same name.
pub open spec fn with_program(programs: Seq<ProgramModel>, program: ProgramModel) -> Seq<
    ProgramModel,
> {
    match program_index(programs, program.name, 0) {
        Some(i) => programs.update(i, program),
        None => programs.push(program),
    }
}

/// A program that has just been loaded.
pub open spec fn fresh_program(source: ProgramSource) -> ProgramModel {
    ProgramModel {
        name: source.name@,
        bytecode_lines: line_list(source.bytecode@),
        debug_info: source.debug_info,
        sources: Map::empty(),
    }
}

/// The first `n` programs as they are loaded.
pub open spec fn loaded_programs(programs: Seq<ProgramSource>, n: int) -> Seq<ProgramModel>
    decreases n,
{
    if n <= 0 {
        Seq::empty()
    } else {
        with_program(loaded_programs(programs, n - 1), fresh_program(programs[n - 1]))
    }
}

/// Whether no two programs have the same name.
pub open spec fn distinct_programs(programs: Seq<ProgramModel>) -> bool {
    forall|i: int, j: int|
        0 <= i < j < programs.len() ==> (#[trigger] programs[i]).name != (
        #[trigger] programs[j]).name
}

/// Where execution was last seen.
pub struct StopInfo {
    pub program: String,
    pub function: String,
    pub context: Context,
    pub index: usize,
    pub frames: Vec<Frame>,
    pub loc: Option<SourceLoc>,
    pub registers: Vec<(u64, String)>,
}

/// What a `StopInfo` says.
#[verifier::ext_equal]
pub struct StopView {
    pub program: Seq<char>,
    pub function: Seq<char>,
    pub context: Context,
    pub index: usize,
    pub frames: Seq<FrameView>,
    pub loc: Option<SourceLoc>,
    pub registers: Seq<(u64, Seq<char>)>,
}

impl View for StopInfo {
    type V = StopView;

    open spec fn view(&self) -> StopView {
        StopView {
            program: self.program@,
            function: self.function@,
            context: self.context,
            index: self.index,
            frames: frame_views(self.frames@),
            loc: self.loc,
            registers: register_views(self.registers@),
        }
    }
}

impl From<Position> for StopInfo {
    fn from(position: Position) -> (stop: Self) {
        StopInfo {
            program: position.program,
            function: position.function,
            context: position.context,
            index: position.index,
            frames: position.frames,
            loc: position.loc,
            registers: position.registers,
        }
    }
}

impl vstd::std_specs::convert::FromSpecImpl<Position> for StopInfo {
    open spec fn obeys_from_spec() -> bool {
        true
    }

    open spec fn from_spec(position: Position) -> StopInfo {
        StopInfo {
            program: position.program,
            function: position.function,
            context: position.context,
            index: position.index,
            frames: position.frames,
            loc: position.loc,
            registers: position.registers,
        }
    }
}

/// The stop that a position describes.
pub open spec fn stop_at(position: PositionView) -> StopView {
    StopView {
        program: position.program,
        function: position.function,
        context: position.context,
        index: position.index,
        frames: position.frames,
        loc: position.loc,
        registers: position.registers,
    }
}

/// The panes of the screen, from top to bottom.
#[derive(Clone, Copy, Debug, PartialEq, Eq, Structural)]
pub enum Pane {
    Source,
    Bytecode,
    Console,
}

impl Pane {
    /// The pane below; below the last one, the first.
    pub open spec fn below(self) -> Pane {
        match self {
            Pane::Source => Pane::Bytecode,
            Pane::Bytecode => Pane::Console,
            Pane::Console => Pane::Source,
        }
    }

    /// The pane above; above the first one, the last.
    pub open spec fn above(self) -> Pane {
        match self {
            Pane::Source => Pane::Console,
            Pane::Bytecode => Pane::Source,
            Pane::Console => Pane::Bytecode,
        }
    }

    /// The pane below; below the last one, the first.
    pub fn next(self) -> (pane: Self)
        ensures
            pane == self.below(),
    {
        match self {
            Pane::Source => Pane::Bytecode,
            Pane::Bytecode => Pane::Console,
            Pane::Console => Pane::Source,
        }
    }

    /// The pane above; above the first one, the last.
    pub fn prev(self) -> (pane: Self)
        ensures
            pane == self.above(),
    {
        match self {
            Pane::Source => Pane::Console,
            Pane::Bytecode => Pane::Source,
            Pane::Console => Pane::Bytecode,
        }
    }
}

/// What of a pane's text is on the screen: the first visible line, whether the pane follows its
/// subject by itself, and how many lines are visible.
#[derive(Clone, Copy, Debug, PartialEq, Eq, Structural)]
pub struct Viewport {
    pub scroll: u16,
    pub follow: bool,
    pub height: u16,
}

/// The state of the interface.
pub struct App {
    pub programs: Vec<ProgramView>,
    pub console: Vec<String>,
    pub input: String,
    pub last_stop: Option<StopInfo>,
    pub finished: bool,
    pub quit: bool,
    pub focus: Pane,
    pub source: Viewport,
    pub bytecode: Viewport,
    pub log: Viewport,
    pub source_len: usize,
    pub bytecode_len: usize,
}

/// What an `App` says.
#[verifier::ext_equal]
pub struct AppView {
    pub programs: Seq<ProgramModel>,
    pub console: Seq<Seq<char>>,
    pub input: Seq<char>,
    pub last_stop: Option<StopView>,
    pub finished: bool,
    pub quit: bool,
    pub focus: Pane,
    pub source: Viewport,
    pub bytecode: Viewport,
    pub log: Viewport,
    pub source_len: usize,
    pub bytecode_len: usize,
}

impl View for App {
    type V = AppView;

    open spec fn view(&self) -> AppView {
        AppView {
            programs: program_models(self.programs@),
            console: texts(self.console@),
            input: self.input@,
            last_stop: match self.last_stop {
                Some(stop) => Some(stop@),
                None => None,
            },
            finished: self.finished,
            quit: self.quit,
            focus: self.focus,
            source: self.source,
            bytecode: self.bytecode,
            log: self.log,
            source_len: self.source_len,
            bytecode_len: self.bytecode_len,
        }
    }
}

impl AppView {
    /// The state with one more line on the console.
    pub open spec fn said(self, line: Seq<char>) -> AppView {
        AppView { console: self.console.push(line), ..self }
    }
}

/// A viewport that shows the start of its text and follows its subject.
pub open spec fn fresh_viewport() -> Viewport {
    Viewport { scroll: 0, follow: true, height: 1 }
}

/// The state in which the interface starts.
pub open spec fn fresh_app(programs: Seq<ProgramModel>) -> AppView {
    AppView {
        programs,
        console: seq![
            "leo debug — type 'help' for commands."@,
            "Running to the first breakpoint..."@,
        ],
        input: Seq::empty(),
        last_stop: None,
        finished: false,
        quit: false,
        focus: Pane::Console,
        source: fresh_viewport(),
        bytecode: fresh_viewport(),
        log: fresh_viewport(),
        source_len: 0,
        bytecode_len: 0,
    }
}

/// A source location as the console shows it, after a blank; nothing where there is none.
pub open spec fn loc_text(loc: Option<SourceLoc>) -> Seq<char> {
    match loc {
        Some(l) => " ("@ + decimal(l.line as nat) + ":"@ + decimal(l.col as nat) + ")"@,
        None => Seq::empty(),
    }
}

/// The line that the console shows for a stop.
pub open spec fn stop_text(position: PositionView) -> Seq<char> {
    "(depth "@ + decimal(position.depth as nat) + ") "@ + position.program + "::"@
        + position.function + " ["@ + decimal(position.index as nat) + "] "@ + position.text
        + loc_text(position.loc)
}

/// The state after execution has been seen at a position: the panes above the console follow it.
pub open spec fn moved_to(app: AppView, position: PositionView) -> AppView {
    AppView {
        last_stop: Some(stop_at(position)),
        source: Viewport { follow: true, ..app.source },
        bytecode: Viewport { follow: true, ..app.bytecode },
        ..app
    }
}

/// The state after an event of the session.
pub open spec fn after_event(app: AppView, event: EventView) -> AppView {
    match event {
        EventView::Stopped(position) => moved_to(app.said(stop_text(position)), position),
        EventView::Progress(position) => moved_to(app, position),
        EventView::PhaseChange(Phase::Finalize) => app.said("--- entering finalize phase ---"@),
        EventView::PhaseChange(Phase::Transition) => app,
        EventView::Finished => AppView { finished: true, ..app.said("✅ Finished."@) },
        EventView::Halted { reason } => AppView {
            finished: true,
            ..app.said("❌ Halted: "@ + reason)
        },
    }
}

/// How far to scroll.
#[derive(Clone, Copy, Debug, PartialEq, Eq, Structural)]
pub enum ScrollAmount {
    LineUp,
    LineDown,
    HalfPageUp,
    HalfPageDown,
}

/// The furthest that a text of `len` lines can be scrolled. A scroll position has sixteen bits.
pub open spec fn max_scroll(len: int, height: u16) -> int {
    if len > height {
        (len - height) % 0x10000
    } else {
        0
    }
}

/// The scroll position, or the furthest there is.
pub open spec fn clamped(scroll: int, len: int, height: u16) -> int {
    if scroll <= max_scroll(len, height) {
        scroll
    } else {
        max_scroll(len, height)
    }
}

/// How many lines an amount is: one, or half of what is visible, but at least one.
pub open spec fn step_of(amount: ScrollAmount, height: u16) -> int {
    match amount {
        ScrollAmount::LineUp | ScrollAmount::LineDown => 1,
        ScrollAmount::HalfPageUp | ScrollAmount::HalfPageDown => if height < 2 {
            1
        } else {
            height as int / 2
        },
    }
}

/// The scroll position that an amount leads to, before it is held to the text.
pub open spec fn stepped(scroll: u16, amount: ScrollAmount, height: u16) -> int {
    let step = step_of(amount, height);
    match amount {
        ScrollAmount::LineUp | ScrollAmount::HalfPageUp => if scroll > step {
            scroll - step
        } else {
            0
        },
        ScrollAmount::LineDown | ScrollAmount::HalfPageDown => if scroll + step < u16::MAX {
            scroll + step
        } else {
            u16::MAX as int
        },
    }
}

/// A viewport on a text of `len` lines after it has been scrolled. Scrolling stops it from following,
/// except that the console follows again at its end.
pub open spec fn scrolled(view: Viewport, len: int, amount: ScrollAmount, console: bool) -> Viewport {
    let scroll = clamped(stepped(view.scroll, amount, view.height), len, view.height);
    Viewport {
        scroll: scroll as u16,
        follow: console && scroll >= max_scroll(len, view.height),
        height: view.height,
    }
}

/// The state after the pane in focus has been scrolled.
pub open spec fn after_scroll(app: AppView, amount: ScrollAmount) -> AppView {
    match app.focus {
        Pane::Source => AppView {
            source: scrolled(app.source, app.source_len as int, amount, false),
            ..app
        },
        Pane::Bytecode => AppView {
            bytecode: scrolled(app.bytecode, app.bytecode_len as int, amount, false),
            ..app
        },
        Pane::Console => AppView {
            log: scrolled(app.log, app.console.len() as int, amount, true),
            ..app
        },
    }
}

/// The furthest that a text of `len` lines can be scrolled.
fn scroll_limit(len: usize, height: u16) -> (max: u16)
    ensures
        max == max_scroll(len as int, height),
{
    if len > height as usize {
        let rest: usize = len - height as usize;
        assert(rest as u16 == rest % 0x10000) by (bit_vector);
        #[verifier::truncate]
        let max: u16 = rest as u16;
        max
    } else {
        0
    }
}

/// The scroll position, or the furthest there is.
pub fn clamp_scroll(scroll: u16, len: usize, height: u16) -> (clamped_scroll: u16)
    ensures
        clamped_scroll == clamped(scroll as int, len as int, height),
{
    let max: u16 = scroll_limit(len, height);
    if scroll <= max {
        scroll
    } else {
        max
    }
}

fn scroll_viewport(view: Viewport, len: usize, amount: ScrollAmount, console: bool) -> (after:
    Viewport)
    ensures
        after == scrolled(view, len as int, amount, console),
{
    let step: u16 = match amount {
        ScrollAmount::LineUp | ScrollAmount::LineDown => 1,
        ScrollAmount::HalfPageUp | ScrollAmount::HalfPageDown => if view.height < 2 {
            1
        } else {
            view.height / 2
        },
    };
    let target: u16 = match amount {
        ScrollAmount::LineUp | ScrollAmount::HalfPageUp => view.scroll.saturating_sub(step),
        ScrollAmount::LineDown | ScrollAmount::HalfPageDown => view.scroll.saturating_add(step),
    };
    let scroll: u16 = clamp_scroll(target, len, view.height);
    let max: u16 = scroll_limit(len, view.height);
    Viewport { scroll, follow: console && scroll >= max, height: view.height }
}

/// Which of the programs has the name.
pub(crate) fn find_program(programs: &Vec<ProgramView>, name: &str) -> (found: Option<usize>)
    ensures
        match (found, program_index(program_models(programs@), name@, 0)) {
            (Some(i), Some(j)) => i == j && i < programs.len(),
            (None, None) => true,
            _ => false,
        },
{
    let ghost models = program_models(programs@);
    let mut i: usize = 0;
    while i < programs.len()
        invariant
            i <= programs.len(),
            models == program_models(programs@),
            program_index(models, name@, 0) == program_index(models, name@, i as int),
        decreases programs.len() - i,
    {
        assert(models[i as int].name == programs[i as int].name@);
        if same(programs[i].name.as_str(), name) {
            return Some(i);
        }
        i += 1;
    }
    None
}

/// The views of the programs, as they are loaded.
fn load_programs(programs: Vec<ProgramSource>) -> (views: Vec<ProgramView>)
    ensures
        program_models(views@) == loaded_programs(programs@, programs@.len() as int),
{
    let ghost all = programs@;
    let mut views: Vec<ProgramView> = Vec::new();
    assert(program_models(views@) == loaded_programs(all, 0));
    for program in it: programs
        invariant
            it.seq() == all,
            program_models(views@) == loaded_programs(all, it.index() as int),
    {
        let ghost before = views@;
        let ProgramSource { name, bytecode, debug_info } = program;
        let view = ProgramView {
            name,
            bytecode_lines: lines(bytecode.as_str()),
            debug_info,
            source_cache: HashMap::new(),
        };
        let ghost model = view@;
        assert(model == fresh_program(program));
        match find_program(&views, view.name.as_str()) {
            Some(i) => {
                views.set(i, view);
                assert(program_models(views@) == program_models(before).update(i as int, model));
            },
            None => {
                views.push(view);
                assert(program_models(views@) == program_models(before).push(model));
            },
        }
    }
    views
}

/// The line that the console shows for a stop.
fn stop_line(position: &Position) -> (line: String)
    ensures
        line@ == stop_text(position@),
{
    let mut line = "(depth ".to_string();
    line.append(decimal_text(position.depth as u64).as_str());
    line.append(") ");
    line.append(position.program.as_str());
    line.append("::");
    line.append(position.function.as_str());
    line.append(" [");
    line.append(decimal_text(position.index as u64).as_str());
    line.append("] ");
    line.append(position.text.as_str());
    let mut loc = String::new();
    if let Some(l) = position.loc {
        loc = " (".to_string();
        loc.append(decimal_text(l.line as u64).as_str());
        loc.append(":");
        loc.append(decimal_text(l.col as u64).as_str());
        loc.append(")");
    }
    line.append(loc.as_str());
    line
}

impl App {
    /// The state in which the interface starts, for the programs.
    pub fn new(programs: Vec<ProgramSource>) -> (app: Self)
        ensures
            app@ == fresh_app(loaded_programs(programs@, programs@.len() as int)),
    {
        let mut console: Vec<String> = Vec::new();
        console.push("leo debug — type 'help' for commands.".to_string());
        console.push("Running to the first breakpoint...".to_string());
        let fresh = Viewport { scroll: 0, follow: true, height: 1 };
        let app = App {
            programs: load_programs(programs),
            console,
            input: String::new(),
            last_stop: None,
            finished: false,
            quit: false,
            focus: Pane::Console,
            source: fresh,
            bytecode: fresh,
            log: fresh,
            source_len: 0,
            bytecode_len: 0,
        };
        assert(app@.console == seq![
            "leo debug — type 'help' for commands."@,
            "Running to the first breakpoint..."@,
        ]);
        app
    }

    fn say(&mut self, line: String)
        ensures
            final(self)@ == old(self)@.said(line@),
    {
        let ghost before = self.console@;
        self.console.push(line);
        assert(texts(self.console@) == texts(before).push(line@));
    }

    fn move_to(&mut self, position: Position)
        ensures
            final(self)@ == moved_to(old(self)@, position@),
    {
        self.last_stop = Some(StopInfo::from(position));
        self.source.follow = true;
        self.bytecode.follow = true;
    }

    /// Takes an event of the session in.
    pub fn handle_event(&mut self, event: DebugEvent)
        ensures
            final(self)@ == after_event(old(self)@, event@),
    {
        match event {
            DebugEvent::Stopped(position) => {
                self.say(stop_line(&position));
                self.move_to(position);
            },
            DebugEvent::Progress(position) => {
                self.move_to(position);
            },
            DebugEvent::PhaseChange(phase) => match phase {
                Phase::Finalize => {
                    self.say("--- entering finalize phase ---".to_string());
                },
                Phase::Transition => {},
            },
            DebugEvent::Finished => {
                self.say("✅ Finished.".to_string());
                self.finished = true;
            },
            DebugEvent::Halted { reason } => {
                let mut line = "❌ Halted: ".to_string();
                line.append(reason.as_str());
                self.say(line);
                self.finished = true;
            },
        }
    }

    /// Scrolls the pane in focus.
    pub fn scroll_focused(&mut self, amount: ScrollAmount)
        ensures
            final(self)@ == after_scroll(old(self)@, amount),
    {
        match self.focus {
            Pane::Source => {
                self.source = scroll_viewport(self.source, self.source_len, amount, false);
            },
            Pane::Bytecode => {
                self.bytecode = scroll_viewport(self.bytecode, self.bytecode_len, amount, false);
            },
            Pane::Console => {
                self.log = scroll_viewport(self.log, self.console.len(), amount, true);
            },
        }
    }
}

/// A source file that is to be shown and has not been read.
pub struct MissingSource {
    pub program: String,
    pub file: usize,
    pub path: String,
}

/// What a `MissingSource` says.
pub struct MissingView {
    pub program: Seq<char>,
    pub file: usize,
    pub path: Seq<char>,
}

impl View for MissingSource {
    type V = MissingView;

    open spec fn view(&self) -> MissingView {
        MissingView { program: self.program@, file: self.file, path: self.path@ }
    }
}

/// What an optional `MissingSource` says.
pub open spec fn missing_view(missing: Option<MissingSource>) -> Option<MissingView> {
    match missing {
        Some(m) => Some(m@),
        None => None,
    }
}

/// The path of a source file of a program, if the program is loaded and its debug map has the file.
pub open spec fn source_path(
    programs: Seq<ProgramModel>,
    program: Seq<char>,
    file: usize,
) -> Option<Seq<char>> {
    match program_index(programs, program, 0) {
        None => None,
        Some(i) => match programs[i].debug_info {
            None => None,
            Some(map) => if file < map.source_files@.len() {
                Some(map.source_files@[file as int]@)
            } else {
                None
            },
        },
    }
}

/// The lines of a source file of a program, if they have been read.
pub open spec fn source_lines(
    programs: Seq<ProgramModel>,
    program: Seq<char>,
    file: usize,
) -> Option<Seq<Seq<char>>> {
    match program_index(programs, program, 0) {
        None => None,
        Some(i) => if programs[i].sources.contains_key(file) {
            Some(programs[i].sources[file])
        } else {
            None
        },
    }
}

/// The source file of the last stop, if it has a path and has not been read.
pub open spec fn wanted_source(app: AppView) -> Option<MissingView> {
    match app.last_stop {
        None => None,
        Some(stop) => match stop.loc {
            None => None,
            Some(loc) => match (
                source_lines(app.programs, stop.program, loc.file),
                source_path(app.programs, stop.program, loc.file),
            ) {
                (None, Some(path)) => Some(
                    MissingView { program: stop.program, file: loc.file, path },
                ),
                _ => None,
            },
        },
    }
}

/// The lines of a file that has been read; in place of one that could not be read, a line that says
/// so.
pub open spec fn read_lines(path: Seq<char>, read: Result<Seq<char>, Seq<char>>) -> Seq<Seq<char>> {
    match read {
        Ok(text) => line_list(text),
        Err(reason) => seq!["(failed to read "@ + path + ": "@ + reason + ")"@],
    }
}

/// The programs after a source file has been read.
pub open spec fn with_source(
    programs: Seq<ProgramModel>,
    program: Seq<char>,
    file: usize,
    list: Seq<Seq<char>>,
) -> Seq<ProgramModel> {
    match program_index(programs, program, 0) {
        None => programs,
        Some(i) => programs.update(
            i,
            ProgramModel { sources: programs[i].sources.insert(file, list), ..programs[i] },
        ),
    }
}

impl App {
    /// The source file of the last stop, if it has a path and has not been read.
    pub fn missing_source(&self) -> (missing: Option<MissingSource>)
        ensures
            missing_view(missing) == wanted_source(self@),
    {
        let stop = match &self.last_stop {
            Some(stop) => stop,
            None => {
                return None;
            },
        };
        let loc = match stop.loc {
            Some(loc) => loc,
            None => {
                return None;
            },
        };
        let i: usize = match find_program(&self.programs, stop.program.as_str()) {
            Some(i) => i,
            None => {
                return None;
            },
        };
        assert(self@.programs[i as int] == self.programs[i as int]@);
        if self.programs[i].source_cache.contains_key(&loc.file) {
            return None;
        }
        match &self.programs[i].debug_info {
            None => None,
            Some(map) => if loc.file < map.source_files.len() {
                Some(
                    MissingSource {
                        program: stop.program.clone(),
                        file: loc.file,
                        path: map.source_files[loc.file].clone(),
                    },
                )
            } else {
                None
            },
        }
    }

    /// Keeps what reading a source file came to: its text, or why it could not be read.
    pub fn store_source(&mut self, missing: &MissingSource, read: Result<String, String>)
        ensures
            final(self)@ == (AppView {
                programs: with_source(
                    old(self)@.programs,
                    missing.program@,
                    missing.file,
                    read_lines(missing.path@, result_text(read)),
                ),
                ..old(self)@
            }),
    {
        let list: Vec<String> = match read {
            Ok(text) => lines(text.as_str()),
            Err(reason) => {
                let mut line = "(failed to read ".to_string();
                line.append(missing.path.as_str());
                line.append(": ");
                line.append(reason.as_str());
                line.append(")");
                let list = vec![line];
                assert(texts(list@) == seq![line@]);
                list
            },
        };
        let ghost before = self.programs@;
        if let Some(i) = find_program(&self.programs, missing.program.as_str()) {
            let ghost model = self.programs[i as int]@;
            let program = &mut self.programs[i];
            program.source_cache.insert(missing.file, list);
            proof {
                assert(self.programs[i as int]@.sources == model.sources.insert(
                    missing.file,
                    texts(list@),
                ));
                assert(program_models(self.programs@) == program_models(before).update(
                    i as int,
                    self.programs[i as int]@,
                ));
            }
        }
    }

    /// The lines of a source file of a program, if they have been read.
    pub fn program_view(&self, program: &str, file: usize) -> (list: Option<&Vec<String>>)
        ensures
            match list {
                Some(list) => Some(texts(list@)),
                None => None,
            } == source_lines(self@.programs, program@, file),
    {
        match find_program(&self.programs, program) {
            None => None,
            Some(i) => {
                assert(self@.programs[i as int] == self.programs[i as int]@);
                self.programs[i].source_cache.get(&file)
            },
        }
    }
}

/// A command as it is written on the console.
pub enum ConsoleCommand {
    /// Nothing is written.
    Nothing,
    Help,
    Resume(DebugCommand),
    Quit,
    Break(Option<String>),
    Backtrace,
    Print(Option<String>),
    Unknown(String),
}

/// What a `ConsoleCommand` says.
pub enum ConsoleCommandView {
    Nothing,
    Help,
    Resume(DebugCommand),
    Quit,
    Break(Option<Seq<char>>),
    Backtrace,
    Print(Option<Seq<char>>),
    Unknown(Seq<char>),
}

impl View for ConsoleCommand {
    type V = ConsoleCommandView;

    open spec fn view(&self) -> ConsoleCommandView {
        match self {
            ConsoleCommand::Nothing => ConsoleCommandView::Nothing,
            ConsoleCommand::Help => ConsoleCommandView::Help,
            ConsoleCommand::Resume(command) => ConsoleCommandView::Resume(*command),
            ConsoleCommand::Quit => ConsoleCommandView::Quit,
            ConsoleCommand::Break(spec) => ConsoleCommandView::Break(optional_text(*spec)),
            ConsoleCommand::Backtrace => ConsoleCommandView::Backtrace,
            ConsoleCommand::Print(what) => ConsoleCommandView::Print(optional_text(*what)),
            ConsoleCommand::Unknown(word) => ConsoleCommandView::Unknown(word@),
        }
    }
}

/// The command that a line holds: its first word names the command, the second one is the argument,
/// and what comes after that does not count.
pub open spec fn command_in(line: Seq<char>) -> ConsoleCommandView {
    let list = word_list(line);
    if list.len() == 0 {
        ConsoleCommandView::Nothing
    } else {
        let word = list[0];
        let argument = if list.len() > 1 {
            Some(list[1])
        } else {
            None
        };
        if word == "help"@ || word == "h"@ {
            ConsoleCommandView::Help
        } else if word == "continue"@ || word == "c"@ {
            ConsoleCommandView::Resume(DebugCommand::Continue)
        } else if word == "step"@ || word == "s"@ {
            ConsoleCommandView::Resume(DebugCommand::StepInto)
        } else if word == "next"@ || word == "n"@ {
            ConsoleCommandView::Resume(DebugCommand::StepOverLine)
        } else if word == "stepi"@ || word == "si"@ {
            ConsoleCommandView::Resume(DebugCommand::StepInstr)
        } else if word == "nexti"@ || word == "ni"@ {
            ConsoleCommandView::Resume(DebugCommand::NextInstr)
        } else if word == "quit"@ || word == "q"@ {
            ConsoleCommandView::Quit
        } else if word == "break"@ || word == "b"@ {
            ConsoleCommandView::Break(argument)
        } else if word == "backtrace"@ || word == "bt"@ {
            ConsoleCommandView::Backtrace
        } else if word == "print"@ || word == "p"@ {
            ConsoleCommandView::Print(argument)
        } else {
            ConsoleCommandView::Unknown(word)
        }
    }
}

/// The command that a line holds.
pub fn parse_command(line: &str) -> (command: ConsoleCommand)
    ensures
        command@ == command_in(line@),
{
    let list = words(line);
    assert(texts(list@) == word_list(line@));
    if list.len() == 0 {
        return ConsoleCommand::Nothing;
    }
    let word = list[0].as_str();
    assert(word@ == word_list(line@)[0]);
    let argument: Option<String> = if list.len() > 1 {
        assert(list[1]@ == word_list(line@)[1]);
        Some(list[1].clone())
    } else {
        None
    };
    if same(word, "help") || same(word, "h") {
        ConsoleCommand::Help
    } else if same(word, "continue") || same(word, "c") {
        ConsoleCommand::Resume(DebugCommand::Continue)
    } else if same(word, "step") || same(word, "s") {
        ConsoleCommand::Resume(DebugCommand::StepInto)
    } else if same(word, "next") || same(word, "n") {
        ConsoleCommand::Resume(DebugCommand::StepOverLine)
    } else if same(word, "stepi") || same(word, "si") {
        ConsoleCommand::Resume(DebugCommand::StepInstr)
    } else if same(word, "nexti") || same(word, "ni") {
        ConsoleCommand::Resume(DebugCommand::NextInstr)
    } else if same(word, "quit") || same(word, "q") {
        ConsoleCommand::Quit
    } else if same(word, "break") || same(word, "b") {
        ConsoleCommand::Break(argument)
    } else if same(word, "backtrace") || same(word, "bt") {
        ConsoleCommand::Backtrace
    } else if same(word, "print") || same(word, "p") {
        ConsoleCommand::Print(argument)
    } else {
        ConsoleCommand::Unknown(word.to_string())
    }
}

/// What the session has to be told after a command.
pub enum CommandAction {
    Nothing,
    /// Send the command; if the session does not take it, `App::command_refused` is told.
    Send(DebugCommand),
    /// Send `DebugCommand::Quit`, whether or not the session takes it.
    Quit,
    /// Set the breakpoint.
    AddBreakpoint(BreakpointKey),
}

/// What a `CommandAction` says.
pub enum CommandActionView {
    Nothing,
    Send(DebugCommand),
    Quit,
    AddBreakpoint(KeyView),
}

impl View for CommandAction {
    type V = CommandActionView;

    open spec fn view(&self) -> CommandActionView {
        match self {
            CommandAction::Nothing => CommandActionView::Nothing,
            CommandAction::Send(command) => CommandActionView::Send(*command),
            CommandAction::Quit => CommandActionView::Quit,
            CommandAction::AddBreakpoint(key) => CommandActionView::AddBreakpoint(key@),
        }
    }
}

/// The list of the commands.
pub open spec fn help_text() -> Seq<char> {
    "break|b file:line, continue|c, step|s, next|n, stepi|si, nexti|ni, print|p <reg>, backtrace|bt, quit|q | keys: C-j/C-k focus, C-u/C-d half-page, j/k line, Esc follow"@
}

/// The programs whose debug maps are known.
pub open spec fn known_models(programs: Seq<ProgramModel>) -> Seq<(Seq<char>, ProgramDebugMap)> {
    known_in(Seq::new(programs.len(), |i: int| (programs[i].name, programs[i].debug_info)), 0)
}

impl Listed for ProgramView {
    open spec fn listing(&self) -> (Seq<char>, Option<ProgramDebugMap>) {
        (self.name@, self.debug_info)
    }

    fn listed_name(&self) -> (name: &str) {
        self.name.as_str()
    }

    fn listed_map(&self) -> (map: &Option<ProgramDebugMap>) {
        &self.debug_info
    }
}

/// What the console says of a breakpoint that has been set.
pub open spec fn breakpoint_set_text(key: KeyView) -> Seq<char> {
    "Breakpoint set at "@ + key.program + "::"@ + key.function + " ["@ + decimal(key.index as nat)
        + "]."@
}

/// A caller in a backtrace.
pub open spec fn frame_text(number: int, frame: FrameView) -> Seq<char> {
    "#"@ + decimal(number as nat) + " "@ + frame.program_id + "::"@ + frame.function_name + (
    if frame.is_dynamic {
        " (dynamic)"@
    } else {
        Seq::empty()
    })
}

/// The function that is executed, in a backtrace.
pub open spec fn current_text(stop: StopView) -> Seq<char> {
    "#"@ + decimal(stop.frames.len()) + " "@ + stop.program + "::"@ + stop.function
        + " (current)"@
}

/// A backtrace: the callers, the last frame first, and after them the function that is executed.
pub open spec fn backtrace(stop: StopView) -> Seq<Seq<char>> {
    Seq::new(
        stop.frames.len(),
        |i: int| frame_text(i, stop.frames[stop.frames.len() - 1 - i]),
    ).push(current_text(stop))
}

/// A register with its value.
pub open spec fn register_text(register: u64, value: Seq<char>) -> Seq<char> {
    "r"@ + decimal(register as nat) + " = "@ + value
}

/// The value of a register, as the first entry for it from index `from` on gives it.
pub open spec fn register_value(
    registers: Seq<(u64, Seq<char>)>,
    register: nat,
    from: int,
) -> Option<Seq<char>>
    decreases registers.len() - from,
{
    if from >= registers.len() {
        None
    } else if registers[from].0 == register {
        Some(registers[from].1)
    } else {
        register_value(registers, register, from + 1)
    }
}

/// The number of the register that a word names: an `r` and a number.
pub open spec fn register_in(word: Seq<char>) -> Option<nat> {
    if word.len() > 0 && word[0] == 'r' {
        number(word.skip(1), u64::MAX as nat)
    } else {
        None
    }
}

/// What `print` shows: the register that is named, or all of them.
pub open spec fn printed(stop: StopView, what: Option<Seq<char>>) -> Seq<Seq<char>> {
    let register = match what {
        Some(word) => register_in(word),
        None => None,
    };
    match register {
        Some(n) => match register_value(stop.registers, n, 0) {
            Some(value) => seq![register_text(n as u64, value)],
            None => seq!["r"@ + decimal(n) + " is not assigned yet."@],
        },
        None => Seq::new(
            stop.registers.len(),
            |i: int| register_text(stop.registers[i].0, stop.registers[i].1),
        ),
    }
}

/// The state after a command, and what the session has to be told. The tables hold the file names of
/// the source files of those programs whose debug maps are known.
pub open spec fn after_command(
    app: AppView,
    command: ConsoleCommandView,
    tables: Seq<Seq<Option<Seq<char>>>>,
) -> (AppView, CommandActionView) {
    match command {
        ConsoleCommandView::Nothing => (app, CommandActionView::Nothing),
        ConsoleCommandView::Help => (app.said(help_text()), CommandActionView::Nothing),
        ConsoleCommandView::Resume(step) => if app.finished {
            (app.said("Session already finished."@), CommandActionView::Nothing)
        } else {
            (app, CommandActionView::Send(step))
        },
        ConsoleCommandView::Quit => (AppView { quit: true, ..app }, CommandActionView::Quit),
        ConsoleCommandView::Break(None) => (
            app.said("usage: break file:line | break program.aleo:file:line"@),
            CommandActionView::Nothing,
        ),
        ConsoleCommandView::Break(Some(spec)) => match breakpoint_for(
            spec,
            known_models(app.programs),
            tables,
        ) {
            Ok(key) => (
                app.said(breakpoint_set_text(key)),
                CommandActionView::AddBreakpoint(key),
            ),
            Err(message) => (app.said(message), CommandActionView::Nothing),
        },
        ConsoleCommandView::Backtrace => match app.last_stop {
            None => (app.said("Not currently stopped."@), CommandActionView::Nothing),
            Some(stop) => (
                AppView { console: app.console + backtrace(stop), ..app },
                CommandActionView::Nothing,
            ),
        },
        ConsoleCommandView::Print(what) => match app.last_stop {
            None => (app.said("Not currently stopped."@), CommandActionView::Nothing),
            Some(stop) => (
                AppView { console: app.console + printed(stop, what), ..app },
                CommandActionView::Nothing,
            ),
        },
        ConsoleCommandView::Unknown(word) => (
            app.said("Unknown command '"@ + word + "'. Type 'help' for a list."@),
            CommandActionView::Nothing,
        ),
    }
}

/// The programs whose debug maps are known.
fn known_views_of(programs: &Vec<ProgramView>) -> (known: Vec<KnownProgram<'_>>)
    ensures
        known_views(known@) == known_models(program_models(programs@)),
{
    let ghost models = program_models(programs@);
    assert(listings(programs@) == Seq::new(
        models.len(),
        |i: int| (models[i].name, models[i].debug_info),
    ));
    known_programs(programs)
}

fn frame_line(number: usize, frame: &Frame) -> (line: String)
    ensures
        line@ == frame_text(number as int, frame@),
{
    let mut line = "#".to_string();
    line.append(decimal_text(number as u64).as_str());
    line.append(" ");
    line.append(frame.program_id.as_str());
    line.append("::");
    line.append(frame.function_name.as_str());
    let mut dynamic = String::new();
    if frame.is_dynamic {
        dynamic = " (dynamic)".to_string();
    }
    line.append(dynamic.as_str());
    line
}

fn backtrace_lines(stop: &StopInfo) -> (list: Vec<String>)
    ensures
        texts(list@) == backtrace(stop@),
{
    let mut list: Vec<String> = Vec::new();
    let count: usize = stop.frames.len();
    let mut i: usize = 0;
    while i < count
        invariant
            i <= count,
            count == stop.frames.len(),
            list.len() == i,
            forall|j: int|
                0 <= j < i ==> (#[trigger] list[j])@ == frame_text(
                    j,
                    stop@.frames[count - 1 - j],
                ),
        decreases count - i,
    {
        list.push(frame_line(i, &stop.frames[count - 1 - i]));
        i += 1;
    }
    let mut line = "#".to_string();
    line.append(decimal_text(count as u64).as_str());
    line.append(" ");
    line.append(stop.program.as_str());
    line.append("::");
    line.append(stop.function.as_str());
    line.append(" (current)");
    list.push(line);
    assert(texts(list@) == backtrace(stop@));
    list
}

fn register_line(register: u64, value: &str) -> (line: String)
    ensures
        line@ == register_text(register, value@),
{
    let mut line = "r".to_string();
    line.append(decimal_text(register).as_str());
    line.append(" = ");
    line.append(value);
    line
}

/// The number of the register that a word names.
fn register_number(word: &str) -> (register: Option<u64>)
    ensures
        match register {
            Some(n) => Some(n as nat),
            None => None,
        } == register_in(word@),
{
    proof {
        reveal_strlit("r");
        assert("r"@ == seq!['r']);
    }
    if starts_with(word, "r") {
        assert(word@[0] == word@.subrange(0, 1)[0]);
        let count: usize = word.unicode_len();
        parse_u64(word.substring_char(1, count))
    } else {
        proof {
            if word@.len() > 0 && word@[0] == 'r' {
                assert(word@.subrange(0, 1) == seq!['r']);
            }
        }
        None
    }
}

fn register_index(registers: &Vec<(u64, String)>, register: u64) -> (found: Option<usize>)
    ensures
        match found {
            Some(i) => i < registers.len() && register_value(
                register_views(registers@),
                register as nat,
                0,
            ) == Some(registers[i as int].1@),
            None => register_value(register_views(registers@), register as nat, 0) is None,
        },
{
    let ghost views = register_views(registers@);
    let mut i: usize = 0;
    while i < registers.len()
        invariant
            i <= registers.len(),
            views == register_views(registers@),
            register_value(views, register as nat, 0) == register_value(
                views,
                register as nat,
                i as int,
            ),
        decreases registers.len() - i,
    {
        assert(views[i as int] == (registers[i as int].0, registers[i as int].1@));
        if registers[i].0 == register {
            return Some(i);
        }
        i += 1;
    }
    None
}

fn printed_lines(stop: &StopInfo, what: &Option<String>) -> (list: Vec<String>)
    ensures
        texts(list@) == printed(stop@, optional_text(*what)),
{
    let register: Option<u64> = match what {
        Some(word) => register_number(word.as_str()),
        None => None,
    };
    let mut list: Vec<String> = Vec::new();
    match register {
        Some(n) => match register_index(&stop.registers, n) {
            Some(i) => {
                list.push(register_line(n, stop.registers[i].1.as_str()));
            },
            None => {
                let mut line = "r".to_string();
                line.append(decimal_text(n).as_str());
                line.append(" is not assigned yet.");
                list.push(line);
            },
        },
        None => {
            let mut i: usize = 0;
            while i < stop.registers.len()
                invariant
                    i <= stop.registers.len(),
                    list.len() == i,
                    forall|j: int|
                        0 <= j < i ==> (#[trigger] list[j])@ == register_text(
                            stop.registers[j].0,
                            stop.registers[j].1@,
                        ),
                decreases stop.registers.len() - i,
            {
                list.push(register_line(stop.registers[i].0, stop.registers[i].1.as_str()));
                i += 1;
            }
        },
    }
    assert(texts(list@) == printed(stop@, optional_text(*what)));
    list
}

fn breakpoint_line(key: &BreakpointKey) -> (line: String)
    ensures
        line@ == breakpoint_set_text(key@),
{
    let mut line = "Breakpoint set at ".to_string();
    line.append(key.program.as_str());
    line.append("::");
    line.append(key.function.as_str());
    line.append(" [");
    line.append(decimal_text(key.index as u64).as_str());
    line.append("].");
    line
}

impl App {
    /// The file names of the source files of those programs whose debug maps are known.
    pub fn known_names(&self) -> (tables: Vec<Vec<Option<String>>>)
        ensures
            are_name_tables(known_models(self@.programs), table_views(tables@)),
    {
        let known = known_views_of(&self.programs);
        name_tables(&known)
    }

    /// The instruction that a breakpoint stands for, or what is wrong with it. The tables hold the
    /// file names of the source files of those programs whose debug maps are known.
    pub fn resolve_breakpoint(&self, spec: &str, tables: &Vec<Vec<Option<String>>>) -> (result:
        Result<BreakpointKey, String>)
        requires
            are_tables_for(known_models(self@.programs), table_views(tables@)),
        ensures
            breakpoint_result(result) == breakpoint_for(
                spec@,
                known_models(self@.programs),
                table_views(tables@),
            ),
    {
        let known = known_views_of(&self.programs);
        resolve_known(spec, &known, tables)
    }

    fn say_all(&mut self, list: Vec<String>)
        ensures
            final(self)@ == (AppView {
                console: old(self)@.console + texts(list@),
                ..old(self)@
            }),
    {
        let ghost before = self.console@;
        let mut more = list;
        self.console.append(&mut more);
        assert(texts(self.console@) == texts(before) + texts(list@));
    }

    /// Does what a command asks for; says what the session has to be told. The tables hold the file
    /// names of the source files of those programs whose debug maps are known.
    pub fn run_command(&mut self, command: ConsoleCommand, tables: &Vec<Vec<Option<String>>>) -> (
        action: CommandAction)
        requires
            are_tables_for(known_models(old(self)@.programs), table_views(tables@)),
        ensures
            (final(self)@, action@) == after_command(old(self)@, command@, table_views(tables@)),
    {
        match command {
            ConsoleCommand::Nothing => CommandAction::Nothing,
            ConsoleCommand::Help => {
                self.say(
                    "break|b file:line, continue|c, step|s, next|n, stepi|si, nexti|ni, print|p <reg>, backtrace|bt, quit|q | keys: C-j/C-k focus, C-u/C-d half-page, j/k line, Esc follow".to_string(),
                );
                CommandAction::Nothing
            },
            ConsoleCommand::Resume(step) => {
                if self.finished {
                    self.say("Session already finished.".to_string());
                    CommandAction::Nothing
                } else {
                    CommandAction::Send(step)
                }
            },
            ConsoleCommand::Quit => {
                self.quit = true;
                CommandAction::Quit
            },
            ConsoleCommand::Break(argument) => match argument {
                None => {
                    self.say("usage: break file:line | break program.aleo:file:line".to_string());
                    CommandAction::Nothing
                },
                Some(spec) => match self.resolve_breakpoint(spec.as_str(), tables) {
                    Ok(key) => {
                        self.say(breakpoint_line(&key));
                        CommandAction::AddBreakpoint(key)
                    },
                    Err(message) => {
                        self.say(message);
                        CommandAction::Nothing
                    },
                },
            },
            ConsoleCommand::Backtrace => {
                let list: Option<Vec<String>> = match &self.last_stop {
                    None => None,
                    Some(stop) => Some(backtrace_lines(stop)),
                };
                match list {
                    None => self.say("Not currently stopped.".to_string()),
                    Some(list) => self.say_all(list),
                }
                CommandAction::Nothing
            },
            ConsoleCommand::Print(what) => {
                let list: Option<Vec<String>> = match &self.last_stop {
                    None => None,
                    Some(stop) => Some(printed_lines(stop, &what)),
                };
                match list {
                    None => self.say("Not currently stopped.".to_string()),
                    Some(list) => self.say_all(list),
                }
                CommandAction::Nothing
            },
            ConsoleCommand::Unknown(word) => {
                let mut line = "Unknown command '".to_string();
                line.append(word.as_str());
                line.append("'. Type 'help' for a list.");
                self.say(line);
                CommandAction::Nothing
            },
        }
    }

    /// Does what a line on the console asks for; says what the session has to be told. Where the
    /// parts of a source file's path end rests with the platform, as far as `may_be_file_name` leaves
    /// it open.
    pub fn handle_command(&mut self, line: &str) -> (action: CommandAction)
        ensures
            exists|tables: Seq<Seq<Option<Seq<char>>>>|
                {
                    &&& #[trigger] are_name_tables(known_models(old(self)@.programs), tables)
                    &&& (final(self)@, action@) == after_command(
                        old(self)@,
                        command_in(line@),
                        tables,
                    )
                },
    {
        let tables = self.known_names();
        self.run_command(parse_command(line), &tables)
    }

    /// Takes in that the session did not take a command.
    pub fn command_refused(&mut self)
        ensures
            final(self)@ == old(self)@.said("Session's command channel is closed."@),
    {
        self.say("Session's command channel is closed.".to_string());
    }
}

/// A key that the interface knows.
#[derive(Clone, Copy, Debug, PartialEq, Eq, Structural)]
pub enum Key {
    Char(char),
    Enter,
    Backspace,
    Esc,
    Other,
}

/// The state with the pane in focus following its subject.
pub open spec fn following(app: AppView) -> AppView {
    match app.focus {
        Pane::Source => AppView { source: Viewport { follow: true, ..app.source }, ..app },
        Pane::Bytecode => AppView { bytecode: Viewport { follow: true, ..app.bytecode }, ..app },
        Pane::Console => AppView { log: Viewport { follow: true, ..app.log }, ..app },
    }
}

/// The state after the input has been entered, and the line that was entered: blank lines are dropped,
/// every other one is shown on the console.
pub open spec fn entered(app: AppView) -> (AppView, Option<Seq<char>>) {
    let cleared = AppView { input: Seq::empty(), ..app };
    if trimmed(app.input).len() == 0 {
        (cleared, None)
    } else {
        (
            AppView {
                log: Viewport { follow: true, ..app.log },
                ..cleared.said("(leo-debug) "@ + app.input)
            },
            Some(app.input),
        )
    }
}

/// The state after a key, and the line that it has entered. With the control key `j` and `k` move the
/// focus, and `u` and `d` scroll by half a page. Without it `j` and `k` scroll by a line, except in
/// the console, which takes what is typed.
pub open spec fn after_key(app: AppView, key: Key, ctrl: bool) -> (AppView, Option<Seq<char>>) {
    match key {
        Key::Char(c) => if ctrl {
            if c == 'j' {
                (AppView { focus: app.focus.below(), ..app }, None)
            } else if c == 'k' {
                (AppView { focus: app.focus.above(), ..app }, None)
            } else if c == 'u' {
                (after_scroll(app, ScrollAmount::HalfPageUp), None)
            } else if c == 'd' {
                (after_scroll(app, ScrollAmount::HalfPageDown), None)
            } else {
                (app, None)
            }
        } else if app.focus == Pane::Console {
            (AppView { input: app.input.push(c), ..app }, None)
        } else if c == 'j' {
            (after_scroll(app, ScrollAmount::LineDown), None)
        } else if c == 'k' {
            (after_scroll(app, ScrollAmount::LineUp), None)
        } else {
            (app, None)
        },
        Key::Enter => if app.focus == Pane::Console {
            entered(app)
        } else {
            (app, None)
        },
        Key::Backspace => if app.focus == Pane::Console && app.input.len() > 0 {
            (AppView { input: app.input.drop_last(), ..app }, None)
        } else {
            (app, None)
        },
        Key::Esc => (following(app), None),
        Key::Other => (app, None),
    }
}

impl App {
    /// Takes a key in; gives the line that it has entered, if it has entered one. That line is for
    /// `App::handle_command`.
    pub fn press(&mut self, key: Key, ctrl: bool) -> (line: Option<String>)
        ensures
            (final(self)@, optional_text(line)) == after_key(old(self)@, key, ctrl),
    {
        match key {
            Key::Char(c) => {
                if ctrl {
                    if c == 'j' {
                        self.focus = self.focus.next();
                    } else if c == 'k' {
                        self.focus = self.focus.prev();
                    } else if c == 'u' {
                        self.scroll_focused(ScrollAmount::HalfPageUp);
                    } else if c == 'd' {
                        self.scroll_focused(ScrollAmount::HalfPageDown);
                    }
                } else if self.focus == Pane::Console {
                    self.input.push(c);
                } else if c == 'j' {
                    self.scroll_focused(ScrollAmount::LineDown);
                } else if c == 'k' {
                    self.scroll_focused(ScrollAmount::LineUp);
                }
                None
            },
            Key::Enter => {
                if self.focus != Pane::Console {
                    return None;
                }
                let line = self.input.clone();
                self.input = String::new();
                if trim(line.as_str()).is_empty() {
                    return None;
                }
                let mut shown = "(leo-debug) ".to_string();
                shown.append(line.as_str());
                self.say(shown);
                self.log.follow = true;
                Some(line)
            },
            Key::Backspace => {
                if self.focus == Pane::Console {
                    self.input.pop();
                }
                None
            },
            Key::Esc => {
                match self.focus {
                    Pane::Source => {
                        self.source.follow = true;
                    },
                    Pane::Bytecode => {
                        self.bytecode.follow = true;
                    },
                    Pane::Console => {
                        self.log.follow = true;
                    },
                }
                None
            },
            Key::Other => None,
        }
    }
}

/// The panes lie in a circle: going down undoes going up, and three steps lead back.
pub proof fn law_panes_lie_in_a_circle(pane: Pane)
    ensures
        pane.below().above() == pane,
        pane.above().below() == pane,
        pane.below().below().below() == pane,
        pane.above().above().above() == pane,
{
}

/// Whatever is scrolled, the viewport stays within its text.
pub proof fn law_scrolling_stays_in_the_text(
    view: Viewport,
    len: int,
    amount: ScrollAmount,
    console: bool,
)
    requires
        len >= 0,
    ensures
        ({
            let after = scrolled(view, len, amount, console);
            &&& after.scroll <= max_scroll(len, view.height)
            &&& after.scroll <= len
            &&& after.height == view.height
        }),
{
}

/// Scrolling a line down and a line up leads back to where the viewport was, unless it was at the end
/// of its text already.
pub proof fn law_scrolling_back(view: Viewport, len: int, console: bool)
    requires
        view.scroll < max_scroll(len, view.height),
    ensures
        ({
            let down = scrolled(view, len, ScrollAmount::LineDown, console);
            let back = scrolled(down, len, ScrollAmount::LineUp, console);
            &&& down.scroll == view.scroll + 1
            &&& back.scroll == view.scroll
        }),
{
}

/// A session that is over is sent no more steps: whatever the command, only quitting reaches it.
pub proof fn law_finished_session_is_not_resumed(
    app: AppView,
    command: ConsoleCommandView,
    tables: Seq<Seq<Option<Seq<char>>>>,
)
    requires
        app.finished,
    ensures
        !(after_command(app, command, tables).1 is Send),
{
}

/// No event and no command takes back what the console has said.
pub proof fn law_console_only_grows(
    app: AppView,
    event: EventView,
    command: ConsoleCommandView,
    tables: Seq<Seq<Option<Seq<char>>>>,
)
    ensures
        app.console.is_prefix_of(after_event(app, event).console),
        app.console.is_prefix_of(after_command(app, command, tables).0.console),
{
}

/// A session that has finished or halted stays so, whatever comes after.
pub proof fn law_finished_for_good(
    app: AppView,
    event: EventView,
    key: Key,
    ctrl: bool,
    command: ConsoleCommandView,
    tables: Seq<Seq<Option<Seq<char>>>>,
)
    requires
        app.finished,
    ensures
        after_event(app, event).finished,
        after_key(app, key, ctrl).0.finished,
        after_command(app, command, tables).0.finished,
{
}

/// A program that has the name is found.
pub proof fn lemma_program_index(programs: Seq<ProgramModel>, name: Seq<char>, from: int)
    requires
        0 <= from,
    ensures
        match program_index(programs, name, from) {
            Some(i) => from <= i < programs.len() && programs[i].name == name,
            None => forall|i: int|
                from <= i < programs.len() ==> (#[trigger] programs[i]).name != name,
        },
    decreases programs.len() - from,
{
    if from < programs.len() && programs[from].name != name {
        lemma_program_index(programs, name, from + 1);
    }
}

/// The loaded programs have different names.
pub proof fn law_programs_are_distinct(programs: Seq<ProgramSource>, n: int)
    requires
        0 <= n <= programs.len(),
    ensures
        distinct_programs(loaded_programs(programs, n)),
    decreases n,
{
    if n > 0 {
        law_programs_are_distinct(programs, n - 1);
        lemma_program_index(loaded_programs(programs, n - 1), programs[n - 1].name@, 0);
    }
}

/// Every program that is to be loaded is found under its name, and the last one with that name is
/// what is found.
pub proof fn law_last_program_counts(programs: Seq<ProgramSource>, n: int, k: int)
    requires
        0 <= k < n <= programs.len(),
        forall|j: int| k < j < n ==> (#[trigger] programs[j]).name@ != programs[k].name@,
    ensures
        ({
            let loaded = loaded_programs(programs, n);
            let found = program_index(loaded, programs[k].name@, 0);
            found is Some && loaded[found->0] == fresh_program(programs[k])
        }),
    decreases n,
{
    let before = loaded_programs(programs, n - 1);
    let loaded = loaded_programs(programs, n);
    let name = programs[k].name@;
    law_programs_are_distinct(programs, n - 1);
    law_programs_are_distinct(programs, n);
    lemma_program_index(before, programs[n - 1].name@, 0);
    lemma_program_index(loaded, name, 0);
    if k == n - 1 {
        let at = match program_index(before, name, 0) {
            Some(i) => i,
            None => before.len() as int,
        };
        assert(loaded[at] == fresh_program(programs[k]));
    } else {
        law_last_program_counts(programs, n - 1, k);
        lemma_program_index(before, name, 0);
        let at = program_index(before, name, 0)->0;
        assert(programs[n - 1].name@ != name);
        assert(loaded[at] == before[at]);
    }
}

/// A source file that has been read is not asked for again: its lines are what was stored, and the
/// other files of all the programs are as they were.
pub proof fn law_source_is_kept(
    programs: Seq<ProgramModel>,
    program: Seq<char>,
    file: usize,
    list: Seq<Seq<char>>,
    other: Seq<char>,
    other_file: usize,
)
    requires
        program_index(programs, program, 0) is Some,
    ensures
        ({
            let after = with_source(programs, program, file, list);
            &&& source_lines(after, program, file) == Some(list)
            &&& (other != program || other_file != file) ==> source_lines(after, other, other_file)
                == source_lines(programs, other, other_file)
            &&& source_path(after, other, other_file) == source_path(programs, other, other_file)
        }),
{
    let after = with_source(programs, program, file, list);
    lemma_program_index(programs, program, 0);
    lemma_same_names(programs, after, program, 0);
    lemma_same_names(programs, after, other, 0);
    lemma_program_index(programs, other, 0);
}

/// Where a program is found depends on the names alone.
proof fn lemma_same_names(
    a: Seq<ProgramModel>,
    b: Seq<ProgramModel>,
    name: Seq<char>,
    from: int,
)
    requires
        0 <= from,
        a.len() == b.len(),
        forall|i: int| 0 <= i < a.len() ==> (#[trigger] a[i]).name == b[i].name,
    ensures
        program_index(a, name, from) == program_index(b, name, from),
    decreases a.len() - from,
{
    if from < a.len() {
        assert(a[from].name == b[from].name);
        lemma_same_names(a, b, name, from + 1);
    }
}

} // verus!
