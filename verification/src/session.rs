//! A debug session: what it starts from, and the order in which its call is run.
use vstd::prelude::*;

use crate::breakpoints::{key_views, BreakpointKey, BreakpointSet, KeyView};
use crate::debug_map::{
    debug_map_entries, debug_map_insert, lemma_lookup_put, lookup, no_debug_maps, put,
    ProgramDebugMap,
};
use crate::hook::{
    key_at, law_breakpoint_stops, make_hook, stops, DebugEvent, DebugPoint, EventView, Hook, HookState,
    PendingStep, Phase,
};
use crate::literals::{
    can_read_program, has_fitting_literals, is_readable_program, literals_fit,
};
use crate::text::{join, joined, optional_text, same, texts};
use crate::vm::{
    identifier_of, outline_of, program_id_of, read_identifier, read_program,
    read_program_id, value_error, value_error_of, FunctionOutline, FunctionView,
    OutlineView, ProgramOutline,
};

verus! {

/// A program to be loaded: its name, its bytecode, and its debug map if it has one.
#[derive(Clone, Debug)]
pub struct ProgramSource {
    pub name: String,
    pub bytecode: String,
    pub debug_info: Option<ProgramDebugMap>,
}

/// What a session is about: the programs, the call, and the breakpoints to begin with.
#[derive(Clone, Debug)]
pub struct SessionConfig {
    pub programs: Vec<ProgramSource>,
    pub program_id: String,
    pub function_name: String,
    pub inputs: Vec<String>,
    pub initial_breakpoints: Vec<BreakpointKey>,
}

/// The debug maps of the first `n` programs, each under its program's name.
pub open spec fn program_maps(programs: Seq<ProgramSource>, n: int) -> Seq<
    (Seq<char>, ProgramDebugMap),
>
    decreases n,
{
    if n <= 0 {
        Seq::empty()
    } else {
        let before = program_maps(programs, n - 1);
        match programs[n - 1].debug_info {
            Some(map) => put(before, programs[n - 1].name@, map),
            None => before,
        }
    }
}

/// A program that is being run.
#[derive(Clone, Debug)]
pub struct ProgramText {
    pub name: String,
    pub bytecode: String,
}

/// What a `ProgramText` says.
pub struct ProgramTextView {
    pub name: Seq<char>,
    pub bytecode: Seq<char>,
}

impl View for ProgramText {
    type V = ProgramTextView;

    open spec fn view(&self) -> ProgramTextView {
        ProgramTextView { name: self.name@, bytecode: self.bytecode@ }
    }
}

/// How far the call of a session has been run.
#[derive(Copy, Clone, Debug, PartialEq, Eq, Structural)]
pub enum Stage {
    Ready,
    LoadingProcess,
    AddingProgram(usize),
    OpeningStore,
    Authorizing,
    Evaluating,
    BuildingExecution,
    BuildingState,
    Finalizing,
    Ended,
}

/// What is to be done next with the virtual machine.
#[derive(Clone, Debug)]
pub enum RunAction {
    /// Load a fresh process.
    LoadProcess,
    /// Add the program with that index to the process.
    AddProgram(usize),
    /// Open a finalize store in memory, with the mappings of all programs.
    OpenStore,
    /// Authorize the call.
    Authorize,
    /// Install the debug hook and evaluate the call.
    Evaluate,
    /// Build an execution from the authorized transitions.
    BuildExecution,
    /// Report the event, and build the global state of the finalize phase.
    BuildState(DebugEvent),
    /// Finalize the execution.
    Finalize,
    /// Report the event; the session is over.
    End(DebugEvent),
}

/// What a `RunAction` says.
pub enum RunActionView {
    LoadProcess,
    AddProgram(usize),
    OpenStore,
    Authorize,
    Evaluate,
    BuildExecution,
    BuildState(EventView),
    Finalize,
    End(EventView),
}

impl View for RunAction {
    type V = RunActionView;

    open spec fn view(&self) -> RunActionView {
        match self {
            RunAction::LoadProcess => RunActionView::LoadProcess,
            RunAction::AddProgram(index) => RunActionView::AddProgram(*index),
            RunAction::OpenStore => RunActionView::OpenStore,
            RunAction::Authorize => RunActionView::Authorize,
            RunAction::Evaluate => RunActionView::Evaluate,
            RunAction::BuildExecution => RunActionView::BuildExecution,
            RunAction::BuildState(event) => RunActionView::BuildState(event@),
            RunAction::Finalize => RunActionView::Finalize,
            RunAction::End(event) => RunActionView::End(event@),
        }
    }
}

/// The run of a session's call.
pub struct Run {
    pub stage: Stage,
    pub programs: Vec<ProgramText>,
    pub outlines: Vec<ProgramOutline>,
    pub program_id: String,
    pub function_name: String,
    pub inputs: Vec<String>,
}

/// What a `Run` says.
pub struct RunView {
    pub stage: Stage,
    pub programs: Seq<ProgramTextView>,
    pub outlines: Seq<OutlineView>,
    pub program_id: Seq<char>,
    pub function_name: Seq<char>,
    pub inputs: Seq<Seq<char>>,
}

impl View for Run {
    type V = RunView;

    open spec fn view(&self) -> RunView {
        RunView {
            stage: self.stage,
            programs: Seq::new(self.programs@.len(), |i: int| self.programs@[i]@),
            outlines: Seq::new(self.outlines@.len(), |i: int| self.outlines@[i]@),
            program_id: self.program_id@,
            function_name: self.function_name@,
            inputs: texts(self.inputs@),
        }
    }
}

/// A debug session.
pub struct Session {
    pub state: HookState,
    pub hook: Hook,
    pub run: Run,
}

/// What was attempted, and the reason for which it failed.
pub open spec fn failure(what: Seq<char>, reason: Seq<char>) -> Seq<char> {
    what + ": "@ + reason
}

/// What was attempted with a name, in quotes.
pub open spec fn quoted(what: Seq<char>, name: Seq<char>) -> Seq<char> {
    what + " '"@ + name + "'"@
}

/// The session ends for a reason.
pub open spec fn halted(run: RunView, reason: Seq<char>) -> (RunView, RunActionView) {
    (
        RunView { stage: Stage::Ended, ..run },
        RunActionView::End(EventView::Halted { reason }),
    )
}

/// The next stage, and what is done there.
pub open spec fn goes_on(run: RunView, stage: Stage, action: RunActionView) -> (
    RunView,
    RunActionView,
) {
    (RunView { stage, ..run }, action)
}

/// The program with that index is read, and then added to the process. Behind the last program the
/// store is opened.
pub open spec fn program_step(run: RunView, index: int) -> (RunView, RunActionView) {
    if index >= run.programs.len() {
        goes_on(run, Stage::OpeningStore, RunActionView::OpenStore)
    } else {
        after_parse(run, index, outline_of(run.programs[index].bytecode))
    }
}

/// What follows once the program with that index has been parsed.
pub open spec fn after_parse(
    run: RunView,
    index: int,
    outline: Result<OutlineView, Seq<char>>,
) -> (RunView, RunActionView) {
    match outline {
        Err(reason) => halted(
            run,
            failure(quoted("failed to parse bytecode for"@, run.programs[index].name), reason),
        ),
        Ok(outline) => (
            RunView {
                stage: Stage::AddingProgram(index as usize),
                outlines: run.outlines.push(outline),
                ..run
            },
            RunActionView::AddProgram(index as usize),
        ),
    }
}

/// What the parsers say of a call. They read its program ID, its function name and its inputs, in that
/// order, and stop at the first one that is not in order.
#[derive(Clone, Debug, PartialEq, Eq)]
pub enum CallReading {
    Fine,
    BadProgramId(String),
    BadFunctionName(String),
    BadInput(usize, String),
}

/// What a `CallReading` says.
pub enum CallReadingView {
    Fine,
    BadProgramId(Seq<char>),
    BadFunctionName(Seq<char>),
    BadInput(usize, Seq<char>),
}

impl View for CallReading {
    type V = CallReadingView;

    open spec fn view(&self) -> CallReadingView {
        match self {
            CallReading::Fine => CallReadingView::Fine,
            CallReading::BadProgramId(reason) => CallReadingView::BadProgramId(reason@),
            CallReading::BadFunctionName(reason) => CallReadingView::BadFunctionName(reason@),
            CallReading::BadInput(index, reason) => CallReadingView::BadInput(*index, reason@),
        }
    }
}

/// What the parser of values says of the inputs from index `from` on.
pub open spec fn input_reading(inputs: Seq<Seq<char>>, from: int) -> CallReadingView
    decreases inputs.len() - from,
{
    if from >= inputs.len() {
        CallReadingView::Fine
    } else {
        match value_error_of(inputs[from]) {
            Some(reason) => CallReadingView::BadInput(from as usize, reason),
            None => input_reading(inputs, from + 1),
        }
    }
}

/// What the parsers say of the call.
pub open spec fn call_reading(run: RunView) -> CallReadingView {
    match program_id_of(run.program_id) {
        Err(reason) => CallReadingView::BadProgramId(reason),
        Ok(_) => match identifier_of(run.function_name) {
            Err(reason) => CallReadingView::BadFunctionName(reason),
            Ok(_) => input_reading(run.inputs, 0),
        },
    }
}

/// What is wrong with the call, given what the parsers say of it.
pub open spec fn call_problem(run: RunView, reading: CallReadingView) -> Option<Seq<char>> {
    match reading {
        CallReadingView::Fine => None,
        CallReadingView::BadProgramId(reason) => Some(
            failure(quoted("invalid program ID"@, run.program_id), reason),
        ),
        CallReadingView::BadFunctionName(reason) => Some(
            failure(quoted("invalid function name"@, run.function_name), reason),
        ),
        CallReadingView::BadInput(index, reason) => Some(
            failure(quoted("invalid input"@, run.inputs[index as int]), reason),
        ),
    }
}

/// What is wrong with the call: its program ID, its function name, or one of its inputs.
pub open spec fn call_failure(run: RunView) -> Option<Seq<char>> {
    call_problem(run, call_reading(run))
}

/// Whether the parser of values can take the inputs from index `from` on, up to the first one that is
/// no value: it reads no further.
pub open spec fn inputs_readable(inputs: Seq<Seq<char>>, from: int) -> bool
    decreases inputs.len() - from,
{
    from < inputs.len() ==> literals_fit(inputs[from]) && (value_error_of(inputs[from]) is None
        ==> inputs_readable(inputs, from + 1))
}

/// Whether the parsers can take what they read of the call.
pub open spec fn call_readable(run: RunView) -> bool {
    program_id_of(run.program_id) is Ok && identifier_of(run.function_name) is Ok
        ==> inputs_readable(run.inputs, 0)
}

/// Whether the parsers can take what is read once the work of the stage is done: the next program,
/// or the call.
pub open spec fn next_readable(run: RunView) -> bool {
    match run.stage {
        Stage::LoadingProcess => run.programs.len() > 0 ==> is_readable_program(
            run.programs[0].bytecode,
        ),
        Stage::AddingProgram(index) => index + 1 < run.programs.len() ==> is_readable_program(
            run.programs[index + 1].bytecode,
        ),
        Stage::OpeningStore => call_readable(run),
        _ => true,
    }
}

/// Whether the first of the functions that has the name has finalize logic.
pub open spec fn function_finalizes(functions: Seq<FunctionView>, name: Seq<char>) -> bool
    decreases functions.len(),
{
    if functions.len() == 0 {
        false
    } else if functions[0].name == name {
        functions[0].has_finalize
    } else {
        function_finalizes(functions.skip(1), name)
    }
}

/// Whether the called function of the first program with that ID has finalize logic.
pub open spec fn call_finalizes(
    outlines: Seq<OutlineView>,
    program_id: Seq<char>,
    function: Seq<char>,
) -> bool
    decreases outlines.len(),
{
    if outlines.len() == 0 {
        false
    } else if outlines[0].id == program_id {
        function_finalizes(outlines[0].functions, function)
    } else {
        call_finalizes(outlines.skip(1), program_id, function)
    }
}

/// What parsing a program came to.
pub open spec fn outline_view(outline: Result<ProgramOutline, String>) -> Result<
    OutlineView,
    Seq<char>,
> {
    match outline {
        Ok(program) => Ok(program@),
        Err(reason) => Err(reason@),
    }
}

/// What failed, if the work of a stage failed.
pub open spec fn stage_failure(run: RunView, reason: Seq<char>) -> Seq<char> {
    match run.stage {
        Stage::LoadingProcess => failure("failed to load a fresh snarkVM process"@, reason),
        Stage::AddingProgram(index) => failure(
            quoted("failed to add program"@, run.programs[index as int].name),
            reason,
        ),
        Stage::OpeningStore => failure("failed to open an in-memory finalize store"@, reason),
        Stage::Authorizing => failure("failed to authorize the call"@, reason),
        Stage::Evaluating => failure("evaluation failed"@, reason),
        Stage::BuildingExecution => failure(
            "failed to build an execution from the authorized transitions"@,
            reason,
        ),
        Stage::BuildingState => failure("failed to build finalize global state"@, reason),
        Stage::Finalizing => failure("finalization failed"@, reason),
        Stage::Ready | Stage::Ended => reason,
    }
}

/// What follows once the work of a stage is done: the programs are loaded one by one, the store is
/// opened, the call is checked, authorized and evaluated, and, if the called function has finalize
/// logic, finalized.
pub open spec fn stage_done(run: RunView) -> (RunView, RunActionView) {
    match run.stage {
        Stage::LoadingProcess => program_step(run, 0),
        Stage::AddingProgram(index) => program_step(run, index + 1),
        Stage::OpeningStore => match call_failure(run) {
            Some(reason) => halted(run, reason),
            None => goes_on(run, Stage::Authorizing, RunActionView::Authorize),
        },
        Stage::Authorizing => goes_on(run, Stage::Evaluating, RunActionView::Evaluate),
        Stage::Evaluating => if call_finalizes(run.outlines, run.program_id, run.function_name) {
            goes_on(run, Stage::BuildingExecution, RunActionView::BuildExecution)
        } else {
            goes_on(run, Stage::Ended, RunActionView::End(EventView::Finished))
        },
        Stage::BuildingExecution => goes_on(
            run,
            Stage::BuildingState,
            RunActionView::BuildState(EventView::PhaseChange(Phase::Finalize)),
        ),
        Stage::BuildingState => goes_on(run, Stage::Finalizing, RunActionView::Finalize),
        Stage::Finalizing | Stage::Ready | Stage::Ended => goes_on(
            run,
            Stage::Ended,
            RunActionView::End(EventView::Finished),
        ),
    }
}

/// What follows a stage with its outcome.
pub open spec fn after_stage(run: RunView, outcome: Result<(), Seq<char>>) -> (
    RunView,
    RunActionView,
) {
    match outcome {
        Ok(_) => stage_done(run),
        Err(reason) => halted(run, stage_failure(run, reason)),
    }
}

/// What an outcome says.
pub open spec fn outcome_view(outcome: Result<(), String>) -> Result<(), Seq<char>> {
    match outcome {
        Ok(_) => Ok(()),
        Err(reason) => Err(reason@),
    }
}

fn failure_text(what: &str, reason: &str) -> (text: String)
    ensures
        text@ == failure(what@, reason@),
{
    let mut text = what.to_string();
    text.append(": ");
    text.append(reason);
    text
}

fn quoted_text(what: &str, name: &str) -> (text: String)
    ensures
        text@ == quoted(what@, name@),
{
    let mut text = what.to_string();
    text.append(" '");
    text.append(name);
    text.append("'");
    text
}

impl Run {
    /// Whether the run is in order: a program that is being added is one of the programs.
    pub open spec fn well_formed(&self) -> bool {
        self.stage matches Stage::AddingProgram(index) ==> index < self.programs@.len()
    }

    /// The first thing to do.
    pub fn start(&mut self) -> (action: RunAction)
        requires
            old(self).well_formed(),
            old(self).stage == Stage::Ready,
        ensures
            final(self).well_formed(),
            final(self)@ == (RunView { stage: Stage::LoadingProcess, ..old(self)@ }),
            action@ == RunActionView::LoadProcess,
    {
        self.stage = Stage::LoadingProcess;
        RunAction::LoadProcess
    }

    fn halt(&mut self, reason: String) -> (action: RunAction)
        requires
            old(self).well_formed(),
        ensures
            final(self).well_formed(),
            (final(self)@, action@) == halted(old(self)@, reason@),
    {
        self.stage = Stage::Ended;
        RunAction::End(DebugEvent::Halted { reason })
    }

    /// Takes in what parsing the program with that index came to; says what to do next.
    pub fn program_parsed(&mut self, index: usize, outline: Result<ProgramOutline, String>) -> (
        action: RunAction)
        requires
            old(self).well_formed(),
            index < old(self).programs.len(),
        ensures
            final(self).well_formed(),
            (final(self)@, action@) == after_parse(
                old(self)@,
                index as int,
                outline_view(outline),
            ),
    {
        let ghost before = self@;
        match outline {
            Err(reason) => {
                let what = quoted_text(
                    "failed to parse bytecode for",
                    self.programs[index].name.as_str(),
                );
                self.halt(failure_text(what.as_str(), reason.as_str()))
            },
            Ok(outline) => {
                self.outlines.push(outline);
                self.stage = Stage::AddingProgram(index);
                assert(self@.outlines =~= before.outlines.push(outline@));
                RunAction::AddProgram(index)
            },
        }
    }

    fn load_program(&mut self, index: usize) -> (action: RunAction)
        requires
            old(self).well_formed(),
            index < old(self).programs.len() ==> is_readable_program(
                old(self).programs[index as int].bytecode@,
            ),
        ensures
            final(self).well_formed(),
            (final(self)@, action@) == program_step(old(self)@, index as int),
    {
        if index >= self.programs.len() {
            self.stage = Stage::OpeningStore;
            return RunAction::OpenStore;
        }
        let outline = read_program(self.programs[index].bytecode.as_str());
        self.program_parsed(index, outline)
    }

    /// What is wrong with the call, if anything is, given what the parsers say of it.
    pub fn describe_problem(&self, reading: &CallReading) -> (problem: Option<String>)
        requires
            reading matches CallReading::BadInput(index, _) ==> index < self.inputs.len(),
        ensures
            optional_text(problem) == call_problem(self@, reading@),
    {
        match reading {
            CallReading::Fine => None,
            CallReading::BadProgramId(reason) => {
                let what = quoted_text("invalid program ID", self.program_id.as_str());
                Some(failure_text(what.as_str(), reason.as_str()))
            },
            CallReading::BadFunctionName(reason) => {
                let what = quoted_text("invalid function name", self.function_name.as_str());
                Some(failure_text(what.as_str(), reason.as_str()))
            },
            CallReading::BadInput(index, reason) => {
                let what = quoted_text("invalid input", self.inputs[*index].as_str());
                Some(failure_text(what.as_str(), reason.as_str()))
            },
        }
    }

    /// What the parsers say of the call.
    fn read_call(&self) -> (reading: CallReading)
        requires
            call_readable(self@),
        ensures
            reading@ == call_reading(self@),
            reading matches CallReading::BadInput(index, _) ==> index < self.inputs.len(),
    {
        if let Err(reason) = read_program_id(self.program_id.as_str()) {
            return CallReading::BadProgramId(reason);
        }
        if let Err(reason) = read_identifier(self.function_name.as_str()) {
            return CallReading::BadFunctionName(reason);
        }
        let ghost inputs = self@.inputs;
        let mut i: usize = 0;
        while i < self.inputs.len()
            invariant
                i <= self.inputs.len(),
                inputs == texts(self.inputs@),
                inputs_readable(inputs, i as int),
                input_reading(inputs, 0) == input_reading(inputs, i as int),
                call_reading(self@) == input_reading(inputs, 0),
            decreases self.inputs.len() - i,
        {
            assert(inputs[i as int] == self.inputs[i as int]@);
            if let Some(reason) = value_error(self.inputs[i].as_str()) {
                return CallReading::BadInput(i, reason);
            }
            i += 1;
        }
        CallReading::Fine
    }

    /// Whether the parsers can take what they read of the call.
    fn can_read_call(&self) -> (readable: bool)
        ensures
            readable == call_readable(self@),
    {
        if read_program_id(self.program_id.as_str()).is_err() {
            return true;
        }
        if read_identifier(self.function_name.as_str()).is_err() {
            return true;
        }
        let ghost inputs = self@.inputs;
        let mut i: usize = 0;
        while i < self.inputs.len()
            invariant
                i <= self.inputs.len(),
                inputs == texts(self.inputs@),
                inputs_readable(inputs, 0) == inputs_readable(inputs, i as int),
                call_readable(self@) == inputs_readable(inputs, 0),
            decreases self.inputs.len() - i,
        {
            assert(inputs[i as int] == self.inputs[i as int]@);
            if !has_fitting_literals(self.inputs[i].as_str()) {
                return false;
            }
            if value_error(self.inputs[i].as_str()).is_some() {
                return true;
            }
            i += 1;
        }
        true
    }

    /// Whether the parsers can take what is read once the work of the stage is done.
    fn can_read_next(&self) -> (readable: bool)
        requires
            self.well_formed(),
        ensures
            readable == next_readable(self@),
    {
        match self.stage {
            Stage::LoadingProcess => self.programs.len() == 0 || can_read_program(
                self.programs[0].bytecode.as_str(),
            ),
            Stage::AddingProgram(index) => {
                assert(index < self.programs.len());
                index + 1 == self.programs.len() || can_read_program(
                    self.programs[index + 1].bytecode.as_str(),
                )
            },
            Stage::OpeningStore => self.can_read_call(),
            _ => true,
        }
    }

    /// Whether the called function has finalize logic.
    fn has_finalize(&self) -> (finalizes: bool)
        ensures
            finalizes == call_finalizes(self@.outlines, self@.program_id, self@.function_name),
    {
        let mut i: usize = 0;
        let ghost outlines = self@.outlines;
        assert(outlines.skip(0) =~= outlines);
        while i < self.outlines.len()
            invariant
                outlines == self@.outlines,
                i <= self.outlines.len(),
                call_finalizes(outlines, self@.program_id, self@.function_name) == call_finalizes(
                    outlines.skip(i as int),
                    self@.program_id,
                    self@.function_name,
                ),
            decreases self.outlines.len() - i,
        {
            let outline = &self.outlines[i];
            assert(outlines.skip(i as int)[0] == outline@);
            if same(outline.id.as_str(), self.program_id.as_str()) {
                return finalizes_in(&outline.functions, self.function_name.as_str());
            }
            assert(outlines.skip(i as int).skip(1) =~= outlines.skip(i + 1));
            i += 1;
        }
        false
    }

    /// The work of the current stage has ended: says what to do next. At the last stage, and after
    /// a failure, the session ends.
    pub fn advance(&mut self, outcome: Result<(), String>) -> (action: RunAction)
        requires
            old(self).well_formed(),
            old(self).stage != Stage::Ready,
            old(self).stage != Stage::Ended,
            outcome is Ok ==> next_readable(old(self)@),
        ensures
            final(self).well_formed(),
            (final(self)@, action@) == after_stage(old(self)@, outcome_view(outcome)),
    {
        if let Err(reason) = outcome {
            let reason = reason.as_str();
            let text = match self.stage {
                Stage::LoadingProcess => failure_text(
                    "failed to load a fresh snarkVM process",
                    reason,
                ),
                Stage::AddingProgram(index) => {
                    let what = quoted_text(
                        "failed to add program",
                        self.programs[index].name.as_str(),
                    );
                    failure_text(what.as_str(), reason)
                },
                Stage::OpeningStore => failure_text(
                    "failed to open an in-memory finalize store",
                    reason,
                ),
                Stage::Authorizing => failure_text("failed to authorize the call", reason),
                Stage::Evaluating => failure_text("evaluation failed", reason),
                Stage::BuildingExecution => failure_text(
                    "failed to build an execution from the authorized transitions",
                    reason,
                ),
                Stage::BuildingState => failure_text(
                    "failed to build finalize global state",
                    reason,
                ),
                Stage::Finalizing => failure_text("finalization failed", reason),
                Stage::Ready | Stage::Ended => reason.to_string(),
            };
            return self.halt(text);
        }
        match self.stage {
            Stage::LoadingProcess => self.load_program(0),
            Stage::AddingProgram(index) => {
                assert(index < self.programs.len());
                self.load_program(index + 1)
            },
            Stage::OpeningStore => {
                let reading = self.read_call();
                match self.describe_problem(&reading) {
                    Some(reason) => self.halt(reason),
                    None => {
                        self.stage = Stage::Authorizing;
                        RunAction::Authorize
                    },
                }
            },
            Stage::Authorizing => {
                self.stage = Stage::Evaluating;
                RunAction::Evaluate
            },
            Stage::Evaluating => {
                if self.has_finalize() {
                    self.stage = Stage::BuildingExecution;
                    RunAction::BuildExecution
                } else {
                    self.stage = Stage::Ended;
                    RunAction::End(DebugEvent::Finished)
                }
            },
            Stage::BuildingExecution => {
                self.stage = Stage::BuildingState;
                RunAction::BuildState(DebugEvent::PhaseChange(Phase::Finalize))
            },
            Stage::BuildingState => {
                self.stage = Stage::Finalizing;
                RunAction::Finalize
            },
            Stage::Finalizing | Stage::Ready | Stage::Ended => {
                self.stage = Stage::Ended;
                RunAction::End(DebugEvent::Finished)
            },
        }
    }

    /// The work of the current stage has ended: says what to do next. If a parser cannot take what is
    /// to be read next, there is no next thing to do, and the run stays as it is.
    pub fn try_advance(&mut self, outcome: Result<(), String>) -> (action: Option<RunAction>)
        requires
            old(self).well_formed(),
            old(self).stage != Stage::Ready,
            old(self).stage != Stage::Ended,
        ensures
            final(self).well_formed(),
            match action {
                Some(action) => (outcome is Ok ==> next_readable(old(self)@)) && (
                    final(self)@,
                    action@,
                ) == after_stage(old(self)@, outcome_view(outcome)),
                None => outcome is Ok && !next_readable(old(self)@) && *final(self) == *old(self),
            },
    {
        if outcome.is_ok() && !self.can_read_next() {
            return None;
        }
        Some(self.advance(outcome))
    }
}

/// Whether the first of the functions that has the name has finalize logic.
fn finalizes_in(functions: &Vec<FunctionOutline>, name: &str) -> (finalizes: bool)
    ensures
        finalizes == function_finalizes(
            Seq::new(functions@.len(), |i: int| functions@[i]@),
            name@,
        ),
{
    let ghost views = Seq::new(functions@.len(), |i: int| functions@[i]@);
    let mut i: usize = 0;
    assert(views.skip(0) =~= views);
    while i < functions.len()
        invariant
            views == Seq::new(functions@.len(), |i: int| functions@[i]@),
            i <= functions.len(),
            function_finalizes(views, name@) == function_finalizes(views.skip(i as int), name@),
        decreases functions.len() - i,
    {
        assert(views.skip(i as int)[0] == functions[i as int]@);
        if same(functions[i].name.as_str(), name) {
            return functions[i].has_finalize;
        }
        assert(views.skip(i as int).skip(1) =~= views.skip(i + 1));
        i += 1;
    }
    false
}

/// The names and the bytecodes of the programs.
pub open spec fn program_texts(programs: Seq<ProgramSource>) -> Seq<ProgramTextView> {
    Seq::new(
        programs.len(),
        |i: int| ProgramTextView { name: programs[i].name@, bytecode: programs[i].bytecode@ },
    )
}

/// The set of the breakpoints in the list.
fn breakpoint_set(keys: Vec<BreakpointKey>) -> (set: BreakpointSet)
    ensures
        set.well_formed(),
        set@ == key_views(keys@).to_set(),
{
    let mut set = BreakpointSet::default();
    let ghost all = key_views(keys@);
    assert(all.take(0).to_set() =~= Set::<KeyView>::empty());
    for key in it: keys
        invariant
            it.seq() == keys@,
            all == key_views(keys@),
            set.well_formed(),
            set@ == all.take(it.index() as int).to_set(),
    {
        proof {
            let i = it.index() as int;
            let longer = all.take(i + 1);
            assert(key@ == all[i]);
            assert(longer =~= all.take(i).push(key@));
            assert(longer.to_set() =~= all.take(i).to_set().insert(key@)) by {
                assert(longer[i] == key@);
                assert forall|k: KeyView| all.take(i).contains(k) implies longer.contains(k) by {
                    let j = choose|j: int| 0 <= j < i && all.take(i)[j] == k;
                    assert(longer[j] == k);
                }
            }
        }
        set.insert(key);
    }
    assert(all.take(all.len() as int) =~= all);
    set
}

impl Session {
    /// A session for the configuration, ready to be run. A program without debug information has no
    /// debug map; of two programs with one name the later debug map counts.
    pub fn spawn(config: SessionConfig) -> (session: Self)
        ensures
            debug_map_entries(session.state.debug_maps) == program_maps(
                config.programs@,
                config.programs@.len() as int,
            ),
            session.state.breakpoints.well_formed(),
            session.state.breakpoints@ == key_views(config.initial_breakpoints@).to_set(),
            session.hook == (Hook { pending: None, stopped: None }),
            session.run.well_formed(),
            session.run@ == (RunView {
                stage: Stage::Ready,
                programs: program_texts(config.programs@),
                outlines: Seq::empty(),
                program_id: config.program_id@,
                function_name: config.function_name@,
                inputs: texts(config.inputs@),
            }),
    {
        let SessionConfig { programs, program_id, function_name, inputs, initial_breakpoints } =
            config;
        let ghost sources = programs@;
        let mut debug_maps = no_debug_maps();
        let mut run_programs: Vec<ProgramText> = Vec::new();
        for program in it: programs
            invariant
                it.seq() == sources,
                debug_map_entries(debug_maps) == program_maps(sources, it.index() as int),
                run_programs.len() == it.index(),
                forall|i: int|
                    0 <= i < it.index() ==> {
                        &&& (#[trigger] run_programs[i]).name@ == sources[i].name@
                        &&& run_programs[i].bytecode@ == sources[i].bytecode@
                    },
        {
            let ProgramSource { name, bytecode, debug_info } = program;
            if let Some(map) = debug_info {
                debug_map_insert(&mut debug_maps, name.clone(), map);
            }
            run_programs.push(ProgramText { name, bytecode });
        }
        let outlines: Vec<ProgramOutline> = Vec::new();
        let run = Run {
            stage: Stage::Ready,
            programs: run_programs,
            outlines,
            program_id,
            function_name,
            inputs,
        };
        proof {
            assert(run@.programs =~= program_texts(sources));
            assert(run@.outlines =~= Seq::<OutlineView>::empty());
        }
        Session {
            state: HookState { breakpoints: breakpoint_set(initial_breakpoints), debug_maps },
            hook: make_hook(),
            run,
        }
    }
}

/// The texts of an error and of its causes, the outermost first, as one text.
pub fn full_chain(causes: &Vec<String>) -> (text: String)
    ensures
        text@ == joined(texts(causes@), ": "@),
{
    join(causes, ": ")
}

/// A session never finishes without having evaluated its call: where it reports `Finished`, the
/// evaluation has just ended well and the function has no finalize logic, or the finalization has
/// just ended well.
pub proof fn law_finishes_after_the_last_stage(run: RunView, outcome: Result<(), Seq<char>>)
    requires
        run.stage != Stage::Ready,
        run.stage != Stage::Ended,
    ensures
        after_stage(run, outcome).1 == RunActionView::End(EventView::Finished) <==> outcome is Ok && (
        run.stage == Stage::Finalizing || (run.stage == Stage::Evaluating && !call_finalizes(
            run.outlines,
            run.program_id,
            run.function_name,
        ))),
{
}

/// The finalize phase is announced exactly once an execution of a function was built, which is
/// asked for only where the called function has finalize logic.
pub proof fn law_finalize_phase_needs_finalize_logic(
    run: RunView,
    outcome: Result<(), Seq<char>>,
)
    requires
        run.stage != Stage::Ready,
        run.stage != Stage::Ended,
    ensures
        after_stage(run, outcome).1 == RunActionView::BuildExecution ==> call_finalizes(
            run.outlines,
            run.program_id,
            run.function_name,
        ),
        after_stage(run, outcome).1 == RunActionView::BuildState(
            EventView::PhaseChange(Phase::Finalize),
        ) <==> outcome is Ok && run.stage == Stage::BuildingExecution,
{
}

/// What fails in any stage ends the session, and the reason that is reported ends with the reason
/// that was given.
pub proof fn law_failure_halts(run: RunView, reason: Seq<char>)
    requires
        run.stage != Stage::Ready,
        run.stage != Stage::Ended,
    ensures
        after_stage(run, Err(reason)).0.stage == Stage::Ended,
        after_stage(run, Err(reason)).1 == RunActionView::End(
            EventView::Halted { reason: stage_failure(run, reason) },
        ),
        reason.is_suffix_of(stage_failure(run, reason)),
{
    let text = stage_failure(run, reason);
    assert(reason =~= text.subrange(text.len() - reason.len(), text.len() as int));
}

/// How many stages may still follow.
pub open spec fn stages_left(run: RunView) -> int {
    match run.stage {
        Stage::Ready => run.programs.len() as int + 8,
        Stage::LoadingProcess => run.programs.len() as int + 7,
        Stage::AddingProgram(index) => run.programs.len() - index + 6,
        Stage::OpeningStore => 6,
        Stage::Authorizing => 5,
        Stage::Evaluating => 4,
        Stage::BuildingExecution => 3,
        Stage::BuildingState => 2,
        Stage::Finalizing => 1,
        Stage::Ended => 0,
    }
}

/// Every stage brings the session nearer to its end, and the session is at its end exactly if its
/// last event was given out.
pub proof fn law_session_ends(run: RunView, outcome: Result<(), Seq<char>>)
    requires
        run.stage != Stage::Ready,
        run.stage != Stage::Ended,
        run.programs.len() <= usize::MAX,
        run.stage matches Stage::AddingProgram(index) ==> index < run.programs.len(),
    ensures
        0 <= stages_left(after_stage(run, outcome).0) < stages_left(run),
        after_stage(run, outcome).0.stage == Stage::Ended <==> after_stage(run, outcome).1 is End,
{
}

/// A call that is in order and whose stages all end well is authorized, evaluated, finalized if its
/// function has finalize logic, and finished.
pub proof fn law_successful_call_finishes(run: RunView)
    requires
        run.stage == Stage::OpeningStore,
        call_failure(run) is None,
    ensures
        ({
            let authorizing = stage_done(run);
            let evaluating = stage_done(authorizing.0);
            let evaluated = stage_done(evaluating.0);
            let announced = stage_done(evaluated.0);
            let finalizing = stage_done(announced.0);
            let finished = stage_done(finalizing.0);
            &&& authorizing.1 == RunActionView::Authorize
            &&& evaluating.1 == RunActionView::Evaluate
            &&& if call_finalizes(run.outlines, run.program_id, run.function_name) {
                &&& evaluated.1 == RunActionView::BuildExecution
                &&& announced.1 == RunActionView::BuildState(
                    EventView::PhaseChange(Phase::Finalize),
                )
                &&& finalizing.1 == RunActionView::Finalize
                &&& finished.1 == RunActionView::End(EventView::Finished)
            } else {
                evaluated.1 == RunActionView::End(EventView::Finished)
            }
        }),
{
}

/// A session stops at every breakpoint that it was begun with, whatever step is pending.
pub proof fn law_initial_breakpoint_stops(
    keys: Seq<KeyView>,
    pending: Option<PendingStep>,
    state: HookState,
    point: DebugPoint,
)
    requires
        state.breakpoints@ == keys.to_set(),
        keys.contains(key_at(point)),
    ensures
        stops(pending, state, point),
{
    law_breakpoint_stops(pending, state, point);
}

/// The debug map of a program is found under the program's name, unless a later program of that name
/// has one too.
pub proof fn law_last_debug_map_counts(programs: Seq<ProgramSource>, n: int, k: int)
    requires
        0 <= k < n <= programs.len(),
        programs[k].debug_info is Some,
        forall|j: int|
            k < j < n && (#[trigger] programs[j]).debug_info is Some ==> programs[j].name@
                != programs[k].name@,
    ensures
        lookup(program_maps(programs, n), programs[k].name@) == programs[k].debug_info,
    decreases n,
{
    let before = program_maps(programs, n - 1);
    if k < n - 1 {
        law_last_debug_map_counts(programs, n - 1, k);
    }
    if let Some(map) = programs[n - 1].debug_info {
        lemma_lookup_put(before, programs[n - 1].name@, map, programs[k].name@);
    }
}

/// A run all of whose texts the parsers can take is never stuck.
pub proof fn law_fitting_texts_are_readable(run: RunView)
    requires
        run.stage matches Stage::AddingProgram(index) ==> index < run.programs.len(),
        forall|i: int|
            0 <= i < run.programs.len() ==> is_readable_program(
                (#[trigger] run.programs[i]).bytecode,
            ),
        forall|i: int| 0 <= i < run.inputs.len() ==> literals_fit(#[trigger] run.inputs[i]),
    ensures
        next_readable(run),
{
    lemma_fitting_inputs(run.inputs, 0);
}

proof fn lemma_fitting_inputs(inputs: Seq<Seq<char>>, from: int)
    requires
        0 <= from,
        forall|i: int| 0 <= i < inputs.len() ==> literals_fit(#[trigger] inputs[i]),
    ensures
        inputs_readable(inputs, from),
    decreases inputs.len() - from,
{
    if from < inputs.len() {
        lemma_fitting_inputs(inputs, from + 1);
    }
}

/// What the parsers do not read does not count: behind a program ID, a function name or an input that
/// is not in order the call may hold any texts, and the session halts.
pub proof fn law_only_what_is_read_counts(run: RunView, k: int)
    requires
        run.stage == Stage::OpeningStore,
        program_id_of(run.program_id) is Err || identifier_of(run.function_name) is Err || (0 <= k
            < run.inputs.len() && value_error_of(run.inputs[k]) is Some && forall|i: int|
            0 <= i <= k ==> literals_fit(#[trigger] run.inputs[i])),
    ensures
        next_readable(run),
        call_failure(run) is Some,
{
    if 0 <= k < run.inputs.len() && value_error_of(run.inputs[k]) is Some && (forall|i: int|
        0 <= i <= k ==> literals_fit(#[trigger] run.inputs[i])) {
        lemma_inputs_up_to(run.inputs, 0, k);
    }
}

proof fn lemma_inputs_up_to(inputs: Seq<Seq<char>>, from: int, k: int)
    requires
        0 <= from <= k < inputs.len(),
        value_error_of(inputs[k]) is Some,
        forall|i: int| 0 <= i <= k ==> literals_fit(#[trigger] inputs[i]),
    ensures
        inputs_readable(inputs, from),
        input_reading(inputs, from) !is Fine,
    decreases k - from,
{
    if from < k {
        lemma_inputs_up_to(inputs, from + 1, k);
    }
}

} // verus!
