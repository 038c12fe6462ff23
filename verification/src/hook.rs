//! The debug hook: where execution stops, and what a command does about the next stop.
use indexmap::IndexMap;
use vstd::prelude::*;

use crate::breakpoints::{BreakpointSet, KeyView};
use crate::debug_map::{
    debug_map_entries, debug_map_get, is_only_value, lemma_name_is_found, lookup, no_debug_maps,
    section_entries, section_get, DebugInstructions, ProgramDebugMap,
};
use crate::records::{
    constructor_name, constructor_records, function_records, instruction_records,
    law_resolves_to_a_record, line_groups, map_records, resolution, section_records,
    whole_section_records, GroupKey, LineRecord,
};

verus! {

/// A place in the sources.
#[derive(Clone, Copy, Debug, PartialEq, Eq, Structural)]
pub struct SourceLoc {
    pub file: usize,
    pub line: u32,
    pub col: u32,
}

/// The two parts of a call that are debugged.
#[derive(Copy, Clone, Debug, PartialEq, Eq, Hash, Structural)]
pub enum Context {
    Transition,
    Finalize,
}

/// What the machine is about to execute: an instruction of a function, or a command of a finalize
/// block.
#[derive(Copy, Clone, Debug, PartialEq, Eq, Structural)]
pub enum DebugPointKind {
    Instruction,
    FinalizeCommand,
}

impl From<DebugPointKind> for Context {
    fn from(kind: DebugPointKind) -> (context: Self) {
        match kind {
            DebugPointKind::Instruction => Context::Transition,
            DebugPointKind::FinalizeCommand => Context::Finalize,
        }
    }
}

impl vstd::std_specs::convert::FromSpecImpl<DebugPointKind> for Context {
    open spec fn obeys_from_spec() -> bool {
        true
    }

    open spec fn from_spec(kind: DebugPointKind) -> Context {
        context_of(kind)
    }
}

/// The part of the call to which what is executed belongs.
pub open spec fn context_of(kind: DebugPointKind) -> Context {
    match kind {
        DebugPointKind::Instruction => Context::Transition,
        DebugPointKind::FinalizeCommand => Context::Finalize,
    }
}

/// The phases of a debug session.
#[derive(Copy, Clone, Debug, PartialEq, Eq, Structural)]
pub enum Phase {
    Transition,
    Finalize,
}

/// A caller on the machine's stack.
#[derive(Clone, Debug)]
pub struct Frame {
    pub program_id: String,
    pub function_name: String,
    pub is_dynamic: bool,
}

/// What a `Frame` says.
pub struct FrameView {
    pub program_id: Seq<char>,
    pub function_name: Seq<char>,
    pub is_dynamic: bool,
}

impl View for Frame {
    type V = FrameView;

    open spec fn view(&self) -> FrameView {
        FrameView {
            program_id: self.program_id@,
            function_name: self.function_name@,
            is_dynamic: self.is_dynamic,
        }
    }
}

/// What the frames of a stack say.
pub open spec fn frame_views(frames: Seq<Frame>) -> Seq<FrameView> {
    Seq::new(frames.len(), |i: int| frames[i]@)
}

/// The registers with the texts of their values.
pub open spec fn register_views(registers: Seq<(u64, String)>) -> Seq<(u64, Seq<char>)> {
    Seq::new(registers.len(), |i: int| (registers[i].0, registers[i].1@))
}

/// The point that execution has reached.
#[derive(Clone, Debug)]
pub struct DebugPoint {
    pub program_id: String,
    pub function_name: String,
    pub kind: DebugPointKind,
    pub index: usize,
    pub text: String,
    pub depth: usize,
    pub registers: Vec<(u64, String)>,
}

/// What the machine is told to do next.
#[derive(Clone, Debug, PartialEq, Eq)]
pub enum DebugAction {
    Continue,
    Halt(String),
}

/// What a `DebugAction` says.
pub enum ActionView {
    Continue,
    Halt(Seq<char>),
}

impl View for DebugAction {
    type V = ActionView;

    open spec fn view(&self) -> ActionView {
        match self {
            DebugAction::Continue => ActionView::Continue,
            DebugAction::Halt(reason) => ActionView::Halt(reason@),
        }
    }
}

/// Where execution is, as reported to the user.
#[derive(Clone, Debug)]
pub struct Position {
    pub program: String,
    pub function: String,
    pub context: Context,
    pub index: usize,
    pub text: String,
    pub depth: usize,
    pub frames: Vec<Frame>,
    pub loc: Option<SourceLoc>,
    pub registers: Vec<(u64, String)>,
}

/// What a `Position` says.
pub struct PositionView {
    pub program: Seq<char>,
    pub function: Seq<char>,
    pub context: Context,
    pub index: usize,
    pub text: Seq<char>,
    pub depth: usize,
    pub frames: Seq<FrameView>,
    pub loc: Option<SourceLoc>,
    pub registers: Seq<(u64, Seq<char>)>,
}

impl View for Position {
    type V = PositionView;

    open spec fn view(&self) -> PositionView {
        PositionView {
            program: self.program@,
            function: self.function@,
            context: self.context,
            index: self.index,
            text: self.text@,
            depth: self.depth,
            frames: frame_views(self.frames@),
            loc: self.loc,
            registers: register_views(self.registers@),
        }
    }
}

/// What a session reports.
#[derive(Clone, Debug)]
pub enum DebugEvent {
    Stopped(Position),
    Progress(Position),
    PhaseChange(Phase),
    Finished,
    Halted { reason: String },
}

/// What a `DebugEvent` says.
pub enum EventView {
    Stopped(PositionView),
    Progress(PositionView),
    PhaseChange(Phase),
    Finished,
    Halted { reason: Seq<char> },
}

impl View for DebugEvent {
    type V = EventView;

    open spec fn view(&self) -> EventView {
        match self {
            DebugEvent::Stopped(position) => EventView::Stopped(position@),
            DebugEvent::Progress(position) => EventView::Progress(position@),
            DebugEvent::PhaseChange(phase) => EventView::PhaseChange(*phase),
            DebugEvent::Finished => EventView::Finished,
            DebugEvent::Halted { reason } => EventView::Halted { reason: reason@ },
        }
    }
}

/// What the user can ask for at a stop.
#[derive(Copy, Clone, Debug, PartialEq, Eq, Structural)]
pub enum DebugCommand {
    Continue,
    StepInto,
    StepOverLine,
    StepInstr,
    NextInstr,
    Quit,
}

/// What the hook knows of the session: the breakpoints, and the debug maps of the programs.
pub struct HookState {
    pub breakpoints: BreakpointSet,
    pub debug_maps: IndexMap<String, ProgramDebugMap>,
}

impl Default for HookState {
    /// Neither breakpoints nor debug maps.
    fn default() -> (state: Self)
        ensures
            state.breakpoints.well_formed(),
            state.breakpoints@ == Set::<KeyView>::empty(),
            debug_map_entries(state.debug_maps) == Seq::<(Seq<char>, ProgramDebugMap)>::empty(),
    {
        HookState { breakpoints: BreakpointSet::default(), debug_maps: no_debug_maps() }
    }
}

/// The instructions that the debug map records for what is executed. Functions come before
/// closures, and closures before views.
pub open spec fn instructions_of(
    map: ProgramDebugMap,
    kind: DebugPointKind,
    function: Seq<char>,
) -> Option<DebugInstructions> {
    match kind {
        DebugPointKind::FinalizeCommand => lookup(section_entries(map.finalizes), function),
        DebugPointKind::Instruction => match lookup(section_entries(map.functions), function) {
            Some(found) => Some(found),
            None => match lookup(section_entries(map.closures), function) {
                Some(found) => Some(found),
                None => lookup(section_entries(map.views), function),
            },
        },
    }
}

/// The recorded source location of an instruction.
pub open spec fn recorded_loc(
    maps: Seq<(Seq<char>, ProgramDebugMap)>,
    program: Seq<char>,
    kind: DebugPointKind,
    function: Seq<char>,
    index: usize,
) -> Option<SourceLoc> {
    match lookup(maps, program) {
        None => None,
        Some(map) => match instructions_of(map, kind, function) {
            None => None,
            Some(list) => if index >= list.instructions@.len() {
                None
            } else {
                match list.instructions@[index as int] {
                    None => None,
                    Some(loc) => Some(
                        SourceLoc { file: loc.file, line: loc.line, col: loc.col },
                    ),
                }
            },
        },
    }
}

impl HookState {
    /// The source location of an instruction, if the debug maps record one.
    pub fn source_loc(
        &self,
        program: &str,
        kind: DebugPointKind,
        function: &str,
        index: usize,
    ) -> (loc: Option<SourceLoc>)
        ensures
            loc == recorded_loc(
                debug_map_entries(self.debug_maps),
                program@,
                kind,
                function@,
                index,
            ),
            match lookup(debug_map_entries(self.debug_maps), program@) {
                Some(map) => leads_back(map, kind, function@, index, loc),
                None => true,
            },
    {
        let map = match debug_map_get(&self.debug_maps, program) {
            Some(map) => map,
            None => {
                return None;
            },
        };
        let found = match kind {
            DebugPointKind::FinalizeCommand => section_get(&map.finalizes, function),
            DebugPointKind::Instruction => match section_get(&map.functions, function) {
                Some(found) => Some(found),
                None => match section_get(&map.closures, function) {
                    Some(found) => Some(found),
                    None => section_get(&map.views, function),
                },
            },
        };
        let loc = match found {
            None => None,
            Some(list) => if index >= list.instructions.len() {
                None
            } else {
                match list.instructions[index] {
                    None => None,
                    Some(loc) => Some(SourceLoc { file: loc.file, line: loc.line, col: loc.col }),
                }
            },
        };
        proof {
            let groups = line_groups(map_records(*map));
            assert forall|file: usize, line: u32|
                ({
                    let found = #[trigger] resolution(groups, file, line);
                    &&& found is Some
                    &&& found->0.function == function@
                    &&& found->0.context == context_of(kind)
                    &&& found->0.index == index
                    &&& names_one_list(*map, function@, context_of(kind))
                }) implies line_of(loc) == Some((file, resolution(groups, file, line)->0.line)) by {
                law_resolution_is_recorded(*map, file, line);
                lemma_recorded_is_looked_up(
                    *map,
                    function@,
                    kind,
                    index,
                    file,
                    resolution(groups, file, line)->0.line,
                );
            }
        }
        loc
    }
}

/// How far a step goes.
#[derive(Copy, Clone, Debug, PartialEq, Eq, Structural)]
pub enum Granularity {
    Line,
    Instruction,
}

/// A step that has been asked for and is not done yet.
#[derive(Copy, Clone, Debug, PartialEq, Eq)]
pub struct PendingStep {
    pub depth_at_issue: usize,
    pub over: bool,
    pub granularity: Granularity,
    pub start_loc: Option<(usize, u32)>,
}

/// The file and the line of a location.
pub open spec fn line_of(loc: Option<SourceLoc>) -> Option<(usize, u32)> {
    match loc {
        Some(l) => Some((l.file, l.line)),
        None => None,
    }
}

impl PendingStep {
    /// Whether the step ends at a point: not inside a call that it steps over, and, if it goes by
    /// lines, not on the line on which it began.
    pub open spec fn pauses(&self, current_loc: Option<SourceLoc>, depth: usize) -> bool {
        &&& !(self.over && depth > self.depth_at_issue)
        &&& self.granularity == Granularity::Line && self.start_loc is Some && current_loc is Some
            ==> line_of(current_loc) != self.start_loc
    }

    /// Whether the step ends at a point.
    pub fn should_pause(&self, current_loc: Option<SourceLoc>, depth: usize) -> (pause: bool)
        ensures
            pause == self.pauses(current_loc, depth),
    {
        if self.over && depth > self.depth_at_issue {
            return false;
        }
        match self.granularity {
            Granularity::Instruction => true,
            Granularity::Line => match (self.start_loc, current_loc) {
                (Some(start), Some(cur)) => cur.file != start.0 || cur.line != start.1,
                _ => true,
            },
        }
    }
}

/// The step that a command at a stop begins; `Continue` begins none.
pub open spec fn step_for(
    command: DebugCommand,
    depth: usize,
    loc: Option<SourceLoc>,
) -> Option<PendingStep> {
    match command {
        DebugCommand::StepInto => Some(
            PendingStep {
                depth_at_issue: depth,
                over: false,
                granularity: Granularity::Line,
                start_loc: line_of(loc),
            },
        ),
        DebugCommand::StepOverLine => Some(
            PendingStep {
                depth_at_issue: depth,
                over: true,
                granularity: Granularity::Line,
                start_loc: line_of(loc),
            },
        ),
        DebugCommand::StepInstr => Some(
            PendingStep {
                depth_at_issue: depth,
                over: false,
                granularity: Granularity::Instruction,
                start_loc: None,
            },
        ),
        DebugCommand::NextInstr => Some(
            PendingStep {
                depth_at_issue: depth,
                over: true,
                granularity: Granularity::Instruction,
                start_loc: None,
            },
        ),
        DebugCommand::Continue | DebugCommand::Quit => None,
    }
}

/// Whether a pending step, if there is one, ends at a point.
pub open spec fn step_ends(
    pending: Option<PendingStep>,
    loc: Option<SourceLoc>,
    depth: usize,
) -> bool {
    pending is Some && pending->0.pauses(loc, depth)
}

/// The breakpoint that would stop execution at a point.
pub open spec fn key_at(point: DebugPoint) -> KeyView {
    KeyView {
        program: point.program_id@,
        function: point.function_name@,
        context: context_of(point.kind),
        index: point.index,
    }
}

/// The source location of a point.
pub open spec fn loc_at(state: HookState, point: DebugPoint) -> Option<SourceLoc> {
    recorded_loc(
        debug_map_entries(state.debug_maps),
        point.program_id@,
        point.kind,
        point.function_name@,
        point.index,
    )
}

/// Whether execution stops at a point: a breakpoint is set there, or a pending step ends there.
pub open spec fn stops(pending: Option<PendingStep>, state: HookState, point: DebugPoint) -> bool {
    state.breakpoints@.contains(key_at(point)) || step_ends(
        pending,
        loc_at(state, point),
        point.depth,
    )
}

/// The position to report for a point.
pub open spec fn position_at(
    state: HookState,
    point: DebugPoint,
    frames: Seq<Frame>,
) -> PositionView {
    PositionView {
        program: point.program_id@,
        function: point.function_name@,
        context: context_of(point.kind),
        index: point.index,
        text: point.text@,
        depth: point.depth,
        frames: frame_views(frames),
        loc: loc_at(state, point),
        registers: register_views(point.registers@),
    }
}

/// The point at which the hook waits for a command.
#[derive(Copy, Clone, Debug, PartialEq, Eq, Structural)]
pub struct StopPoint {
    pub depth: usize,
    pub loc: Option<SourceLoc>,
}

/// What is to be done at a point.
#[derive(Clone, Debug)]
pub enum HookAction {
    /// Send the event, whether or not anyone receives it, and let execution continue.
    Report(DebugEvent),
    /// Send the event and wait for a command.
    Stop(DebugEvent),
}

/// What a `HookAction` says.
pub enum HookActionView {
    Report(EventView),
    Stop(EventView),
}

impl View for HookAction {
    type V = HookActionView;

    open spec fn view(&self) -> HookActionView {
        match self {
            HookAction::Report(event) => HookActionView::Report(event@),
            HookAction::Stop(event) => HookActionView::Stop(event@),
        }
    }
}

/// The debug hook: the step that is pending, and the stop at which a command is awaited.
#[derive(Copy, Clone, Debug, PartialEq, Eq)]
pub struct Hook {
    pub pending: Option<PendingStep>,
    pub stopped: Option<StopPoint>,
}

/// A hook without a pending step.
pub fn make_hook() -> (hook: Hook)
    ensures
        hook == (Hook { pending: None, stopped: None }),
{
    Hook { pending: None, stopped: None }
}

impl Hook {
    /// Execution has reached a point: says whether to stop there. The pending step stays as it is. The
    /// location that is reported leads back to the line that was resolved to the instruction.
    pub fn reach(&mut self, state: &HookState, point: DebugPoint, frames: Vec<Frame>) -> (action:
        HookAction)
        ensures
            action@ == (if stops(old(self).pending, *state, point) {
                HookActionView::Stop(EventView::Stopped(position_at(*state, point, frames@)))
            } else {
                HookActionView::Report(EventView::Progress(position_at(*state, point, frames@)))
            }),
            final(self).pending == old(self).pending,
            final(self).stopped == (if stops(old(self).pending, *state, point) {
                Some(StopPoint { depth: point.depth, loc: loc_at(*state, point) })
            } else {
                None
            }),
            match lookup(debug_map_entries(state.debug_maps), point.program_id@) {
                Some(map) => leads_back(
                    map,
                    point.kind,
                    point.function_name@,
                    point.index,
                    loc_at(*state, point),
                ),
                None => true,
            },
    {
        let loc = state.source_loc(
            point.program_id.as_str(),
            point.kind,
            point.function_name.as_str(),
            point.index,
        );
        let context = Context::from(point.kind);
        let should_break = state.breakpoints.contains(
            point.program_id.as_str(),
            point.function_name.as_str(),
            context,
            point.index,
        );
        let should_pause = should_break || match &self.pending {
            Some(step) => step.should_pause(loc, point.depth),
            None => false,
        };
        let depth: usize = point.depth;
        let position = Position {
            program: point.program_id,
            function: point.function_name,
            context,
            index: point.index,
            text: point.text,
            depth,
            frames,
            loc,
            registers: point.registers,
        };
        if should_pause {
            self.stopped = Some(StopPoint { depth, loc });
            HookAction::Stop(DebugEvent::Stopped(position))
        } else {
            self.stopped = None;
            HookAction::Report(DebugEvent::Progress(position))
        }
    }

    /// The command that was given at the stop: how execution goes on, and which step is pending
    /// from then on.
    pub fn command(&mut self, command: DebugCommand) -> (action: DebugAction)
        requires
            old(self).stopped is Some,
        ensures
            final(self).stopped is None,
            command == DebugCommand::Quit ==> action@ == ActionView::Halt("quit"@)
                && final(self).pending == old(self).pending,
            command != DebugCommand::Quit ==> action@ == ActionView::Continue
                && final(self).pending == step_for(
                command,
                old(self).stopped->0.depth,
                old(self).stopped->0.loc,
            ),
    {
        let (depth, loc) = match self.stopped {
            Some(stop) => (stop.depth, stop.loc),
            None => (0, None),
        };
        self.stopped = None;
        let line: Option<(usize, u32)> = match loc {
            Some(l) => Some((l.file, l.line)),
            None => None,
        };
        match command {
            DebugCommand::Continue => {
                self.pending = None;
            },
            DebugCommand::Quit => {
                return DebugAction::Halt("quit".to_string());
            },
            DebugCommand::StepInto => {
                self.pending = Some(
                    PendingStep {
                        depth_at_issue: depth,
                        over: false,
                        granularity: Granularity::Line,
                        start_loc: line,
                    },
                );
            },
            DebugCommand::StepOverLine => {
                self.pending = Some(
                    PendingStep {
                        depth_at_issue: depth,
                        over: true,
                        granularity: Granularity::Line,
                        start_loc: line,
                    },
                );
            },
            DebugCommand::StepInstr => {
                self.pending = Some(
                    PendingStep {
                        depth_at_issue: depth,
                        over: false,
                        granularity: Granularity::Instruction,
                        start_loc: None,
                    },
                );
            },
            DebugCommand::NextInstr => {
                self.pending = Some(
                    PendingStep {
                        depth_at_issue: depth,
                        over: true,
                        granularity: Granularity::Instruction,
                        start_loc: None,
                    },
                );
            },
        }
        DebugAction::Continue
    }

    /// Nobody takes the event of a stop any more: execution ends.
    pub fn events_closed(&mut self) -> (action: DebugAction)
        ensures
            action@ == ActionView::Halt("debug event channel closed"@),
            *final(self) == (Hook { pending: old(self).pending, stopped: None }),
    {
        self.stopped = None;
        DebugAction::Halt("debug event channel closed".to_string())
    }

    /// Nobody can give a command any more: execution ends.
    pub fn commands_closed(&mut self) -> (action: DebugAction)
        ensures
            action@ == ActionView::Halt("debug command channel closed"@),
            *final(self) == (Hook { pending: old(self).pending, stopped: None }),
    {
        self.stopped = None;
        DebugAction::Halt("debug command channel closed".to_string())
    }
}

/// A breakpoint stops execution whenever its instruction is reached, whatever step is pending.
pub proof fn law_breakpoint_stops(
    pending: Option<PendingStep>,
    state: HookState,
    point: DebugPoint,
)
    requires
        state.breakpoints@.contains(key_at(point)),
    ensures
        stops(pending, state, point),
{
}

/// After `Continue`, execution stops at breakpoints alone.
pub proof fn law_continue_stops_at_breakpoints(
    depth: usize,
    loc: Option<SourceLoc>,
    state: HookState,
    point: DebugPoint,
)
    ensures
        stops(step_for(DebugCommand::Continue, depth, loc), state, point)
            == state.breakpoints@.contains(key_at(point)),
{
}

/// After `StepInstr`, execution stops at the next point, wherever it is.
pub proof fn law_step_instr_stops_next(
    depth: usize,
    loc: Option<SourceLoc>,
    state: HookState,
    point: DebugPoint,
)
    ensures
        stops(step_for(DebugCommand::StepInstr, depth, loc), state, point),
{
}

/// After `NextInstr`, execution stops at the next point that is no deeper than the stop; inside a
/// call from there it stops at breakpoints alone.
pub proof fn law_next_instr_steps_over_calls(
    depth: usize,
    loc: Option<SourceLoc>,
    state: HookState,
    point: DebugPoint,
)
    ensures
        stops(step_for(DebugCommand::NextInstr, depth, loc), state, point) == (point.depth <= depth
            || state.breakpoints@.contains(key_at(point))),
{
}

/// After `StepInto`, execution stops at the next point that is known to be on another line, or whose
/// line or whose stop's line is not known; on the line of the stop it stops at breakpoints alone.
pub proof fn law_step_into_leaves_the_line(
    depth: usize,
    loc: Option<SourceLoc>,
    state: HookState,
    point: DebugPoint,
)
    ensures
        stops(step_for(DebugCommand::StepInto, depth, loc), state, point) == (
        state.breakpoints@.contains(key_at(point)) || loc is None || loc_at(state, point) is None
            || line_of(loc_at(state, point)) != line_of(loc)),
{
}

/// After `StepOverLine`, execution stops where `StepInto` would, but not inside a call from the
/// stop, except at a breakpoint.
pub proof fn law_step_over_line_steps_over_calls(
    depth: usize,
    loc: Option<SourceLoc>,
    state: HookState,
    point: DebugPoint,
)
    ensures
        stops(step_for(DebugCommand::StepOverLine, depth, loc), state, point) == (
        state.breakpoints@.contains(key_at(point)) || (point.depth <= depth && stops(
            step_for(DebugCommand::StepInto, depth, loc),
            state,
            point,
        ))),
{
}

/// Whether an instruction is recorded, with that file and line, in the list.
pub open spec fn records_line(
    list: DebugInstructions,
    index: usize,
    file: usize,
    line: u32,
) -> bool {
    &&& index < list.instructions@.len()
    &&& list.instructions@[index as int] is Some
    &&& list.instructions@[index as int]->0.file == file
    &&& list.instructions@[index as int]->0.line == line
}

/// A record of a function belongs to one of its instructions.
pub proof fn lemma_function_record(
    function: Seq<char>,
    context: Context,
    list: DebugInstructions,
    n: int,
    record: LineRecord,
)
    requires
        0 <= n <= list.instructions@.len(),
        list.instructions@.len() <= usize::MAX,
        instruction_records(function, context, list.instructions@, n).contains(record),
    ensures
        record.key.function == function,
        record.key.context == context,
        records_line(list, record.index, record.key.file, record.line),
    decreases n,
{
    if n > 0 {
        let before = instruction_records(function, context, list.instructions@, n - 1);
        let all = instruction_records(function, context, list.instructions@, n);
        if before.contains(record) {
            lemma_function_record(function, context, list, n - 1, record);
        } else {
            let i = choose|i: int| 0 <= i < all.len() && all[i] == record;
            if i < before.len() {
                assert(before[i] == record);
            }
        }
    }
}

proof fn lemma_section_record(
    entries: Seq<(Seq<char>, DebugInstructions)>,
    context: Context,
    n: int,
    record: LineRecord,
) -> (i: int)
    requires
        0 <= n <= entries.len(),
        section_records(entries, context, n).contains(record),
    ensures
        0 <= i < n,
        entries[i].0 == record.key.function,
        record.key.context == context,
        records_line(entries[i].1, record.index, record.key.file, record.line),
    decreases n,
{
    let before = section_records(entries, context, n - 1);
    let list = entries[n - 1].1;
    let last = function_records(entries[n - 1].0, context, list);
    let k = choose|k: int| 0 <= k < (before + last).len() && (before + last)[k] == record;
    if k < before.len() {
        assert(before[k] == record);
        lemma_section_record(entries, context, n - 1, record)
    } else {
        assert(last[k - before.len()] == record);
        lemma_vec_len(list);
        lemma_function_record(
            entries[n - 1].0,
            context,
            list,
            list.instructions@.len() as int,
            record,
        );
        n - 1
    }
}

/// An index of an instruction fits its type.
pub proof fn lemma_vec_len(list: DebugInstructions)
    ensures
        list.instructions@.len() <= usize::MAX,
{
    assert(list.instructions.len() <= usize::MAX);
}

/// Whether a section records the line for an instruction of the function.
pub open spec fn section_records_line(
    entries: Seq<(Seq<char>, DebugInstructions)>,
    function: Seq<char>,
    index: usize,
    file: usize,
    line: u32,
) -> bool {
    exists|i: int|
        0 <= i < entries.len() && (#[trigger] entries[i]).0 == function && records_line(
            entries[i].1,
            index,
            file,
            line,
        )
}

/// Whether a debug map records, anywhere, that an instruction of the function, in that part of the
/// call, comes from the line.
pub open spec fn map_records_line(
    map: ProgramDebugMap,
    function: Seq<char>,
    context: Context,
    index: usize,
    file: usize,
    line: u32,
) -> bool {
    match context {
        Context::Transition => {
            ||| section_records_line(section_entries(map.functions), function, index, file, line)
            ||| section_records_line(section_entries(map.closures), function, index, file, line)
            ||| section_records_line(section_entries(map.views), function, index, file, line)
        },
        Context::Finalize => {
            ||| section_records_line(section_entries(map.finalizes), function, index, file, line)
            ||| function == constructor_name() && map.constructor is Some && records_line(
                map.constructor->0,
                index,
                file,
                line,
            )
        },
    }
}

/// A line resolves to an instruction that the debug map records for the resolved line.
pub proof fn law_resolution_is_recorded(map: ProgramDebugMap, file: usize, line: u32)
    requires
        resolution(line_groups(map_records(map)), file, line) is Some,
    ensures
        ({
            let r = resolution(line_groups(map_records(map)), file, line)->0;
            map_records_line(map, r.function, r.context, r.index, file, r.line)
        }),
{
    let records = map_records(map);
    law_resolves_to_a_record(records, file, line);
    let r = resolution(line_groups(records), file, line)->0;
    let record = LineRecord {
        key: GroupKey { file, function: r.function, context: r.context },
        line: r.line,
        index: r.index,
    };
    let a = whole_section_records(section_entries(map.functions), Context::Transition);
    let b = whole_section_records(section_entries(map.closures), Context::Transition);
    let c = whole_section_records(section_entries(map.views), Context::Transition);
    let d = whole_section_records(section_entries(map.finalizes), Context::Finalize);
    let e = constructor_records(map.constructor);
    let k = choose|k: int| 0 <= k < records.len() && records[k] == record;
    let ab = a.len() + b.len();
    let abc = ab + c.len();
    let abcd = abc + d.len();
    if k < a.len() {
        assert(a[k] == record);
        let entries = section_entries(map.functions);
        let i = lemma_section_record(entries, Context::Transition, entries.len() as int, record);
    } else if k < ab {
        assert(b[k - a.len()] == record);
        let entries = section_entries(map.closures);
        let i = lemma_section_record(entries, Context::Transition, entries.len() as int, record);
    } else if k < abc {
        assert(c[k - ab] == record);
        let entries = section_entries(map.views);
        let i = lemma_section_record(entries, Context::Transition, entries.len() as int, record);
    } else if k < abcd {
        assert(d[k - abc] == record);
        let entries = section_entries(map.finalizes);
        let i = lemma_section_record(entries, Context::Finalize, entries.len() as int, record);
    } else {
        assert(e[k - abcd] == record);
        let list = map.constructor->0;
        lemma_vec_len(list);
        lemma_function_record(
            constructor_name(),
            Context::Finalize,
            list,
            list.instructions@.len() as int,
            record,
        );
    }
}

/// Whether the name stands for one list of instructions in that part of the call: it is in no two of
/// the sections for transitions, and it does not stand for the constructor.
pub open spec fn names_one_list(
    map: ProgramDebugMap,
    function: Seq<char>,
    context: Context,
) -> bool {
    match context {
        Context::Transition => {
            let in_functions = lookup(section_entries(map.functions), function) is Some;
            let in_closures = lookup(section_entries(map.closures), function) is Some;
            let in_views = lookup(section_entries(map.views), function) is Some;
            !(in_functions && in_closures) && !(in_functions && in_views) && !(in_closures
                && in_views)
        },
        Context::Finalize => !(function == constructor_name() && map.constructor is Some),
    }
}

/// Whether looking up an instruction leads back to the line that was resolved to it: if a line of a
/// file resolves to this instruction, and its function's name stands for one list of instructions,
/// then the location is in that file, on the resolved line.
pub open spec fn leads_back(
    map: ProgramDebugMap,
    kind: DebugPointKind,
    function: Seq<char>,
    index: usize,
    loc: Option<SourceLoc>,
) -> bool {
    forall|file: usize, line: u32|
        {
            let found = #[trigger] resolution(line_groups(map_records(map)), file, line);
            &&& found is Some
            &&& found->0.function == function
            &&& found->0.context == context_of(kind)
            &&& found->0.index == index
            &&& names_one_list(map, function, context_of(kind))
        } ==> line_of(loc) == Some(
            (file, resolution(line_groups(map_records(map)), file, line)->0.line),
        )
}

/// Whether no other value than the one that is looked up stands under the name in a map.
spec fn is_looked_up(entries: Seq<(Seq<char>, DebugInstructions)>, name: Seq<char>) -> bool {
    lookup(entries, name) is Some ==> is_only_value(entries, name, lookup(entries, name)->0)
}

/// What the debug map records for an instruction is found in the list that is looked up, if nothing
/// else stands under that name in its section.
proof fn lemma_recorded_is_looked_up(
    map: ProgramDebugMap,
    function: Seq<char>,
    kind: DebugPointKind,
    index: usize,
    file: usize,
    line: u32,
)
    requires
        map_records_line(map, function, context_of(kind), index, file, line),
        names_one_list(map, function, context_of(kind)),
        kind == DebugPointKind::FinalizeCommand ==> is_looked_up(
            section_entries(map.finalizes),
            function,
        ),
        kind == DebugPointKind::Instruction ==> {
            let in_functions = lookup(section_entries(map.functions), function) is Some;
            let in_closures = lookup(section_entries(map.closures), function) is Some;
            &&& is_looked_up(section_entries(map.functions), function)
            &&& !in_functions ==> is_looked_up(section_entries(map.closures), function)
            &&& !in_functions && !in_closures ==> is_looked_up(
                section_entries(map.views),
                function,
            )
        },
    ensures
        instructions_of(map, kind, function) is Some,
        records_line(instructions_of(map, kind, function)->0, index, file, line),
{
    match kind {
        DebugPointKind::FinalizeCommand => {
            lemma_recorded_is_named(section_entries(map.finalizes), function, index, file, line);
        },
        DebugPointKind::Instruction => {
            lemma_recorded_is_named(section_entries(map.functions), function, index, file, line);
            lemma_recorded_is_named(section_entries(map.closures), function, index, file, line);
            lemma_recorded_is_named(section_entries(map.views), function, index, file, line);
        },
    }
}

/// A function of which a section records a line is found in the section by its name.
proof fn lemma_recorded_is_named(
    entries: Seq<(Seq<char>, DebugInstructions)>,
    function: Seq<char>,
    index: usize,
    file: usize,
    line: u32,
)
    ensures
        section_records_line(entries, function, index, file, line) ==> lookup(entries, function)
            is Some,
{
    if section_records_line(entries, function, index, file, line) {
        let i = choose|i: int|
            0 <= i < entries.len() && (#[trigger] entries[i]).0 == function && records_line(
                entries[i].1,
                index,
                file,
                line,
            );
        lemma_name_is_found(entries, i);
    }
}

} // verus!
