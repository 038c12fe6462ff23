//! The `debug` command: from a package and the command line to a session.
use vstd::prelude::*;

use crate::breakpoints::{key_views, BreakpointKey, KeyView};
use crate::debug_info::load_view;
use crate::debug_map::ProgramDebugMap;
use crate::hook::Context;
use crate::literals::is_readable_program;
use crate::locate::{
    are_name_tables, are_tables_for, breakpoint_for, breakpoint_result, known_in, known_programs,
    known_views, listings, name_tables, resolve_known, table_views, KnownProgram, Listed,
};
use crate::session::{ProgramSource, SessionConfig};
use crate::text::{ends_with, optional_text, parted, result_text, split_once, texts};
use crate::tui::{
    fresh_program, known_models, lemma_program_index, loaded_programs, program_index,
};
use crate::vm::{
    is_private_key, is_private_key_text, outline_of, program_id_of, read_program,
    read_program_id,
};

verus! {

/// The command line of `debug`: the function to call, its inputs, further programs to load, and the
/// breakpoints.
#[derive(Clone, Debug)]
pub struct LeoDebug {
    pub name: String,
    pub inputs: Vec<String>,
    pub with: Vec<String>,
    pub breakpoints: Vec<String>,
}

/// The networks that a package can be built for.
#[derive(Clone, Copy, Debug, PartialEq, Eq, Structural)]
pub enum NetworkName {
    MainnetV0,
    TestnetV0,
    CanaryV0,
}

/// A unit of a package: its name, whether it is a library, and its bytecode if the package brings it;
/// otherwise the bytecode is in a file.
#[derive(Clone, Debug)]
pub struct Unit {
    pub name: String,
    pub is_library: bool,
    pub bytecode: Option<String>,
}

/// What a `Unit` says.
pub struct UnitView {
    pub name: Seq<char>,
    pub is_library: bool,
    pub bytecode: Option<Seq<char>>,
}

impl View for Unit {
    type V = UnitView;

    open spec fn view(&self) -> UnitView {
        UnitView {
            name: self.name@,
            is_library: self.is_library,
            bytecode: optional_text(self.bytecode),
        }
    }
}

/// What the units say.
pub open spec fn unit_views(units: Seq<Unit>) -> Seq<UnitView> {
    Seq::new(units.len(), |i: int| units[i]@)
}

/// What a program to be loaded says.
pub struct SourceView {
    pub name: Seq<char>,
    pub bytecode: Seq<char>,
    pub debug_info: Option<ProgramDebugMap>,
}

/// What the programs to be loaded say.
pub open spec fn source_views(programs: Seq<ProgramSource>) -> Seq<SourceView> {
    Seq::new(
        programs.len(),
        |i: int|
            SourceView {
                name: programs[i].name@,
                bytecode: programs[i].bytecode@,
                debug_info: programs[i].debug_info,
            },
    )
}

/// The programs whose debug maps are known.
pub open spec fn known_sources(programs: Seq<SourceView>) -> Seq<(Seq<char>, ProgramDebugMap)> {
    known_in(Seq::new(programs.len(), |i: int| (programs[i].name, programs[i].debug_info)), 0)
}

impl Listed for ProgramSource {
    open spec fn listing(&self) -> (Seq<char>, Option<ProgramDebugMap>) {
        (self.name@, self.debug_info)
    }

    fn listed_name(&self) -> (name: &str) {
        self.name.as_str()
    }

    fn listed_map(&self) -> (map: &Option<ProgramDebugMap>) {
        &self.debug_info
    }
}

/// The name with the ending `.aleo`.
pub open spec fn suffixed(name: Seq<char>) -> Seq<char> {
    if ".aleo"@.is_suffix_of(name) {
        name
    } else {
        name + ".aleo"@
    }
}

/// The name with the ending `.aleo`.
pub fn with_aleo_suffix(name: &str) -> (full: String)
    ensures
        full@ == suffixed(name@),
{
    let mut full = name.to_string();
    if !ends_with(name, ".aleo") {
        full.append(".aleo");
    }
    full
}

/// A program and a function of it.
pub struct Target {
    pub program: String,
    pub function: String,
}

/// The program and the function that a name parts into, at its first slash or, if it has none, at its
/// first double colon.
pub open spec fn name_parts(name: Seq<char>) -> Option<(Seq<char>, Seq<char>)> {
    match parted(name, "/"@) {
        Some(parts) => Some(parts),
        None => parted(name, "::"@),
    }
}

/// The program ID and the function that are to be debugged: those in the name, or the function of that
/// name in the last unit.
pub open spec fn target_of(name: Seq<char>, units: Seq<UnitView>) -> (Seq<char>, Seq<char>) {
    match name_parts(name) {
        Some((program, function)) => (suffixed(program), function),
        None => (suffixed(units.last().name), name),
    }
}

/// The program ID and the function that are to be debugged.
pub fn find_target(name: &str, units: &Vec<Unit>) -> (target: Target)
    requires
        name_parts(name@) is Some || units.len() > 0,
    ensures
        (target.program@, target.function@) == target_of(name@, unit_views(units@)),
{
    let parts = match split_once(name, "/") {
        Some(parts) => Some(parts),
        None => split_once(name, "::"),
    };
    match parts {
        Some((program, function)) => Target {
            program: with_aleo_suffix(program.as_str()),
            function,
        },
        None => {
            assert(unit_views(units@).last() == units@.last()@);
            Target {
                program: with_aleo_suffix(units[units.len() - 1].name.as_str()),
                function: name.to_string(),
            }
        },
    }
}

/// The programs whose debug maps are known.
fn known_sources_of(programs: &Vec<ProgramSource>) -> (known: Vec<KnownProgram<'_>>)
    ensures
        known_views(known@) == known_sources(source_views(programs@)),
{
    let ghost views = source_views(programs@);
    assert(listings(programs@) == Seq::new(
        views.len(),
        |i: int| (views[i].name, views[i].debug_info),
    ));
    known_programs(programs)
}

/// The file names of the source files of those programs whose debug maps are known.
pub fn source_names(programs: &Vec<ProgramSource>) -> (tables: Vec<Vec<Option<String>>>)
    ensures
        are_name_tables(known_sources(source_views(programs@)), table_views(tables@)),
{
    let known = known_sources_of(programs);
    name_tables(&known)
}

/// The instruction that a breakpoint stands for, or what is wrong with it. The tables hold the file
/// names of the source files of those programs whose debug maps are known.
pub fn resolve_with_names(
    spec: &str,
    programs: &Vec<ProgramSource>,
    tables: &Vec<Vec<Option<String>>>,
) -> (result: Result<BreakpointKey, String>)
    requires
        are_tables_for(known_sources(source_views(programs@)), table_views(tables@)),
    ensures
        breakpoint_result(result) == breakpoint_for(
            spec@,
            known_sources(source_views(programs@)),
            table_views(tables@),
        ),
{
    let known = known_sources_of(programs);
    resolve_known(spec, &known, tables)
}

/// The instruction that a breakpoint stands for, or what is wrong with it. Where the parts of a
/// source file's path end rests with the platform, as far as `may_be_file_name` leaves it open.
pub fn resolve_breakpoint_spec(spec: &str, programs: &Vec<ProgramSource>) -> (result: Result<
    BreakpointKey,
    String,
>)
    ensures
        exists|tables: Seq<Seq<Option<Seq<char>>>>|
            {
                &&& #[trigger] are_name_tables(
                    known_sources(source_views(programs@)),
                    tables,
                )
                &&& breakpoint_result(result) == breakpoint_for(
                    spec@,
                    known_sources(source_views(programs@)),
                    tables,
                )
            },
{
    let tables = source_names(programs);
    resolve_with_names(spec, programs, &tables)
}

/// The private key with which the call is signed, and what is said of it.
pub struct KeyChoice {
    pub key: String,
    pub notice: Option<String>,
}

/// What is said where no valid private key is given.
pub open spec fn key_notice(fallback: Seq<char>) -> Seq<char> {
    "⚠️ No valid private key specified, defaulting to '"@ + fallback + "'."@
}

/// The private key that is given, if it is valid; otherwise the other one, with a notice.
pub fn choose_private_key(given: Option<String>, fallback: &str) -> (choice: KeyChoice)
    ensures
        given is Some && is_private_key_text(given->0@) ==> choice.key@ == given->0@
            && choice.notice is None,
        !(given is Some && is_private_key_text(given->0@)) ==> choice.key@ == fallback@
            && optional_text(choice.notice) == Some(key_notice(fallback@)),
{
    if let Some(key) = given {
        let valid = is_private_key(key.as_str());
        return pick_private_key(key, valid, fallback);
    }
    pick_private_key(String::new(), false, fallback)
}

/// The private key that is given, if it is valid; otherwise the other one, with a notice.
pub fn pick_private_key(given: String, valid: bool, fallback: &str) -> (choice: KeyChoice)
    ensures
        valid ==> choice.key@ == given@ && choice.notice is None,
        !valid ==> choice.key@ == fallback@ && optional_text(choice.notice) == Some(
            key_notice(fallback@),
        ),
{
    if valid {
        return KeyChoice { key: given, notice: None };
    }
    let mut notice = "⚠️ No valid private key specified, defaulting to '".to_string();
    notice.append(fallback);
    notice.append("'.");
    KeyChoice { key: fallback.to_string(), notice: Some(notice) }
}

/// How far the preparation of a session is.
#[derive(Clone, Copy, Debug, PartialEq, Eq, Structural)]
pub enum LaunchStage {
    Ready,
    ReadingBytecode(usize),
    LoadingDebugInfo(usize),
    Inspecting(usize),
    ReadingFile(usize),
    FindingEndpoint(usize),
    Fetching(usize),
    Complete,
    Failed,
}

/// The preparation of a session: the units of the package are loaded in their order, then the further
/// programs in the order of the command line.
pub struct Launch {
    pub program_name: String,
    pub function_name: String,
    pub units: Vec<Unit>,
    pub with: Vec<String>,
    pub breakpoints: Vec<String>,
    pub inputs: Vec<String>,
    pub programs: Vec<ProgramSource>,
    pub bytecode: String,
    pub stage: LaunchStage,
}

/// What a `Launch` says.
#[verifier::ext_equal]
pub struct LaunchView {
    pub program_name: Seq<char>,
    pub function_name: Seq<char>,
    pub units: Seq<UnitView>,
    pub with: Seq<Seq<char>>,
    pub breakpoints: Seq<Seq<char>>,
    pub inputs: Seq<Seq<char>>,
    pub programs: Seq<SourceView>,
    pub bytecode: Seq<char>,
    pub stage: LaunchStage,
}

impl View for Launch {
    type V = LaunchView;

    open spec fn view(&self) -> LaunchView {
        LaunchView {
            program_name: self.program_name@,
            function_name: self.function_name@,
            units: unit_views(self.units@),
            with: texts(self.with@),
            breakpoints: texts(self.breakpoints@),
            inputs: texts(self.inputs@),
            programs: source_views(self.programs@),
            bytecode: self.bytecode@,
            stage: self.stage,
        }
    }
}

impl LaunchView {
    /// Whether what is being done is about a unit or an entry that there is.
    pub open spec fn well_formed(self) -> bool {
        match self.stage {
            LaunchStage::ReadingBytecode(i) | LaunchStage::LoadingDebugInfo(i) => i
                < self.units.len(),
            LaunchStage::Inspecting(i) | LaunchStage::ReadingFile(i)
            | LaunchStage::FindingEndpoint(i) | LaunchStage::Fetching(i) => i < self.with.len(),
            _ => true,
        }
    }
}

/// What is to be done next.
#[derive(Clone, Debug)]
pub enum LaunchAction {
    /// Read the bytecode file of the unit.
    ReadBytecode(String),
    /// Load the debug map of the unit.
    LoadDebugInfo(String),
    /// See what there is at the path.
    Inspect(String),
    /// Read the program file.
    ReadProgramFile(String),
    /// Find out the endpoint of the network.
    FindEndpoint,
    /// Fetch the program and its dependencies from the endpoint.
    Fetch { program_id: String, endpoint: String },
    /// Nothing more: the session can be configured.
    Finish,
    /// Give up, for this reason.
    Fail(String),
}

/// What a `LaunchAction` says.
pub enum LaunchActionView {
    ReadBytecode(Seq<char>),
    LoadDebugInfo(Seq<char>),
    Inspect(Seq<char>),
    ReadProgramFile(Seq<char>),
    FindEndpoint,
    Fetch { program_id: Seq<char>, endpoint: Seq<char> },
    Finish,
    Fail(Seq<char>),
}

impl View for LaunchAction {
    type V = LaunchActionView;

    open spec fn view(&self) -> LaunchActionView {
        match self {
            LaunchAction::ReadBytecode(unit) => LaunchActionView::ReadBytecode(unit@),
            LaunchAction::LoadDebugInfo(unit) => LaunchActionView::LoadDebugInfo(unit@),
            LaunchAction::Inspect(entry) => LaunchActionView::Inspect(entry@),
            LaunchAction::ReadProgramFile(entry) => LaunchActionView::ReadProgramFile(entry@),
            LaunchAction::FindEndpoint => LaunchActionView::FindEndpoint,
            LaunchAction::Fetch { program_id, endpoint } => LaunchActionView::Fetch {
                program_id: program_id@,
                endpoint: endpoint@,
            },
            LaunchAction::Finish => LaunchActionView::Finish,
            LaunchAction::Fail(reason) => LaunchActionView::Fail(reason@),
        }
    }
}

/// What is to be said, if anything, and then done.
pub struct LaunchStep {
    pub notice: Option<String>,
    pub action: LaunchAction,
}

/// What a `LaunchStep` says.
pub struct StepView {
    pub notice: Option<Seq<char>>,
    pub action: LaunchActionView,
}

impl View for LaunchStep {
    type V = StepView;

    open spec fn view(&self) -> StepView {
        StepView { notice: optional_text(self.notice), action: self.action@ }
    }
}

/// The preparation goes on to a stage, with an action.
pub open spec fn on_to(launch: LaunchView, stage: LaunchStage, action: LaunchActionView) -> (
    LaunchView,
    StepView,
) {
    (LaunchView { stage, ..launch }, StepView { notice: None, action })
}

/// The preparation is given up.
pub open spec fn given_up(launch: LaunchView, reason: Seq<char>) -> (LaunchView, StepView) {
    on_to(launch, LaunchStage::Failed, LaunchActionView::Fail(reason))
}

/// The same, with something to be said first.
pub open spec fn noticed(result: (LaunchView, StepView), notice: Seq<char>) -> (
    LaunchView,
    StepView,
) {
    (result.0, StepView { notice: Some(notice), action: result.1.action })
}

/// The first unit, from index `from` on, that is no library.
pub open spec fn next_unit(units: Seq<UnitView>, from: int) -> Option<int>
    decreases units.len() - from,
{
    if from >= units.len() {
        None
    } else if !units[from].is_library {
        Some(from)
    } else {
        next_unit(units, from + 1)
    }
}

/// The units from index `from` on are to be loaded, and then the further programs.
pub open spec fn at_unit(launch: LaunchView, from: int) -> (LaunchView, StepView) {
    match next_unit(launch.units, from) {
        None => at_entry(launch, 0),
        Some(i) => match launch.units[i].bytecode {
            Some(bytecode) => on_to(
                LaunchView { bytecode, ..launch },
                LaunchStage::LoadingDebugInfo(i as usize),
                LaunchActionView::LoadDebugInfo(launch.units[i].name),
            ),
            None => on_to(
                launch,
                LaunchStage::ReadingBytecode(i as usize),
                LaunchActionView::ReadBytecode(launch.units[i].name),
            ),
        },
    }
}

/// The further programs from index `i` on are to be loaded.
pub open spec fn at_entry(launch: LaunchView, i: int) -> (LaunchView, StepView) {
    if i < launch.with.len() {
        on_to(
            launch,
            LaunchStage::Inspecting(i as usize),
            LaunchActionView::Inspect(launch.with[i]),
        )
    } else {
        on_to(launch, LaunchStage::Complete, LaunchActionView::Finish)
    }
}

/// The preparation with one more program.
pub open spec fn with_source(
    launch: LaunchView,
    name: Seq<char>,
    bytecode: Seq<char>,
    debug_info: Option<ProgramDebugMap>,
) -> LaunchView {
    LaunchView {
        programs: launch.programs.push(SourceView { name, bytecode, debug_info }),
        ..launch
    }
}

/// A file that could not be read.
pub struct ReadFailure {
    pub path: String,
    pub reason: String,
}

/// What there is at a path.
#[derive(Clone, Copy, Debug, PartialEq, Eq, Structural)]
pub enum PathKind {
    File,
    /// Something that is no file.
    Other,
    Missing,
}

/// A program that has been fetched.
#[derive(Clone, Debug)]
pub struct FetchedProgram {
    pub name: String,
    pub bytecode: String,
}

/// The fetched programs as programs to be loaded, without debug maps.
pub open spec fn fetched_views(fetched: Seq<FetchedProgram>) -> Seq<SourceView> {
    Seq::new(
        fetched.len(),
        |i: int|
            SourceView {
                name: fetched[i].name@,
                bytecode: fetched[i].bytecode@,
                debug_info: None,
            },
    )
}

/// After the bytecode file of unit `i` has been read.
pub open spec fn after_bytecode(
    launch: LaunchView,
    i: usize,
    read: Result<Seq<char>, (Seq<char>, Seq<char>)>,
) -> (LaunchView, StepView) {
    match read {
        Ok(bytecode) => on_to(
            LaunchView { bytecode, ..launch },
            LaunchStage::LoadingDebugInfo(i),
            LaunchActionView::LoadDebugInfo(launch.units[i as int].name),
        ),
        Err((path, reason)) => given_up(
            launch,
            "Failed to read bytecode at "@ + path + ": "@ + reason,
        ),
    }
}

/// After the debug map of unit `i` has been looked for.
pub open spec fn after_debug_info(
    launch: LaunchView,
    i: usize,
    loaded: Result<Option<ProgramDebugMap>, Seq<char>>,
) -> (LaunchView, StepView) {
    let name = launch.units[i as int].name;
    match loaded {
        Ok(debug_info) => at_unit(
            with_source(launch, suffixed(name), launch.bytecode, debug_info),
            i + 1,
        ),
        Err(reason) => given_up(
            launch,
            "Failed to load debug info for '"@ + name + "': "@ + reason,
        ),
    }
}

/// After it has been seen what there is at the path of entry `i`.
pub open spec fn after_inspection(launch: LaunchView, i: usize, kind: PathKind) -> (
    LaunchView,
    StepView,
) {
    let entry = launch.with[i as int];
    match kind {
        PathKind::File => noticed(
            on_to(
                launch,
                LaunchStage::ReadingFile(i),
                LaunchActionView::ReadProgramFile(entry),
            ),
            "📂 Loading local program from "@ + entry + "..."@,
        ),
        PathKind::Other => given_up(launch, "'"@ + entry + "' exists but is not a file."@),
        PathKind::Missing => on_to(
            launch,
            LaunchStage::FindingEndpoint(i),
            LaunchActionView::FindEndpoint,
        ),
    }
}

/// After the program file of entry `i` has been read and parsed: the bytecode and the program's ID.
pub open spec fn after_program_file(
    launch: LaunchView,
    i: usize,
    bytecode: Seq<char>,
    id: Result<Seq<char>, Seq<char>>,
) -> (LaunchView, StepView) {
    match id {
        Ok(name) => at_entry(with_source(launch, name, bytecode, None), i + 1),
        Err(reason) => given_up(
            launch,
            "Failed to parse program from '"@ + launch.with[i as int] + "': "@ + reason,
        ),
    }
}

/// The ID that a bytecode text gives its program.
pub open spec fn id_in(bytecode: Seq<char>) -> Result<Seq<char>, Seq<char>> {
    match outline_of(bytecode) {
        Ok(outline) => Ok(outline.id),
        Err(reason) => Err(reason),
    }
}

/// After it is known whether the name of entry `i` is a program ID, and what the endpoint is.
pub open spec fn after_program_id(
    launch: LaunchView,
    i: usize,
    endpoint: Seq<char>,
    id: Result<Seq<char>, Seq<char>>,
) -> (LaunchView, StepView) {
    let name = suffixed(launch.with[i as int]);
    noticed(
        match id {
            Ok(program_id) => on_to(
                launch,
                LaunchStage::Fetching(i),
                LaunchActionView::Fetch { program_id, endpoint },
            ),
            Err(reason) => given_up(
                launch,
                "Failed to parse program ID '"@ + name + "': "@ + reason,
            ),
        },
        "⬇️  Fetching remote program "@ + name + " and its dependencies from "@ + endpoint + "..."@,
    )
}

/// After the program of entry `i` and its dependencies have been fetched.
pub open spec fn after_fetch(
    launch: LaunchView,
    i: usize,
    fetched: Result<Seq<SourceView>, Seq<char>>,
) -> (LaunchView, StepView) {
    match fetched {
        Ok(programs) => at_entry(
            LaunchView { programs: launch.programs + programs, ..launch },
            i + 1,
        ),
        Err(reason) => given_up(launch, reason),
    }
}

/// The instructions that the breakpoints from index `from` on stand for, or what is wrong with the
/// first one that is not in order.
pub open spec fn all_breakpoints(
    specs: Seq<Seq<char>>,
    known: Seq<(Seq<char>, ProgramDebugMap)>,
    tables: Seq<Seq<Option<Seq<char>>>>,
    from: int,
) -> Result<Seq<KeyView>, Seq<char>>
    decreases specs.len() - from,
{
    if from >= specs.len() {
        Ok(Seq::empty())
    } else {
        match breakpoint_for(specs[from], known, tables) {
            Err(message) => Err(message),
            Ok(key) => match all_breakpoints(specs, known, tables, from + 1) {
                Ok(keys) => Ok(seq![key] + keys),
                Err(message) => Err(message),
            },
        }
    }
}

/// The first instruction of the function that is to be debugged.
pub open spec fn entry_point(program: Seq<char>, function: Seq<char>) -> KeyView {
    KeyView { program, function, context: Context::Transition, index: 0 }
}

/// What reading a file came to.
pub open spec fn read_view(read: Result<String, ReadFailure>) -> Result<
    Seq<char>,
    (Seq<char>, Seq<char>),
> {
    match read {
        Ok(text) => Ok(text@),
        Err(failure) => Err((failure.path@, failure.reason@)),
    }
}

fn sentence(before: &str, what: &str, between: &str, why: &str) -> (text: String)
    ensures
        text@ == before@ + what@ + between@ + why@,
{
    let mut text = before.to_string();
    text.append(what);
    text.append(between);
    text.append(why);
    text
}

impl Launch {
    fn go_on(&mut self, stage: LaunchStage, action: LaunchAction) -> (step: LaunchStep)
        ensures
            (final(self)@, step@) == on_to(old(self)@, stage, action@),
    {
        self.stage = stage;
        LaunchStep { notice: None, action }
    }

    fn give_up(&mut self, reason: String) -> (step: LaunchStep)
        ensures
            (final(self)@, step@) == given_up(old(self)@, reason@),
    {
        self.go_on(LaunchStage::Failed, LaunchAction::Fail(reason))
    }

    fn push_source(&mut self, name: String, bytecode: String, debug_info: Option<ProgramDebugMap>)
        ensures
            final(self)@ == with_source(old(self)@, name@, bytecode@, debug_info),
    {
        let ghost before = self.programs@;
        self.programs.push(ProgramSource { name, bytecode, debug_info });
        assert(source_views(self.programs@) == source_views(before).push(
            SourceView { name: name@, bytecode: bytecode@, debug_info },
        ));
    }

    fn begin_entry(&mut self, i: usize) -> (step: LaunchStep)
        ensures
            (final(self)@, step@) == at_entry(old(self)@, i as int),
    {
        if i < self.with.len() {
            let entry = self.with[i].clone();
            self.go_on(LaunchStage::Inspecting(i), LaunchAction::Inspect(entry))
        } else {
            self.go_on(LaunchStage::Complete, LaunchAction::Finish)
        }
    }

    fn begin_unit(&mut self, from: usize) -> (step: LaunchStep)
        requires
            from <= old(self).units.len(),
        ensures
            (final(self)@, step@) == at_unit(old(self)@, from as int),
    {
        let ghost units = self@.units;
        let mut i: usize = from;
        while i < self.units.len() && self.units[i].is_library
            invariant
                *self == *old(self),
                i <= self.units.len(),
                units == unit_views(self.units@),
                next_unit(units, from as int) == next_unit(units, i as int),
            decreases self.units.len() - i,
        {
            assert(units[i as int] == self.units[i as int]@);
            i += 1;
        }
        if i >= self.units.len() {
            return self.begin_entry(0);
        }
        assert(units[i as int] == self.units[i as int]@);
        let name = self.units[i].name.clone();
        match &self.units[i].bytecode {
            Some(bytecode) => {
                self.bytecode = bytecode.clone();
                self.go_on(LaunchStage::LoadingDebugInfo(i), LaunchAction::LoadDebugInfo(name))
            },
            None => self.go_on(LaunchStage::ReadingBytecode(i), LaunchAction::ReadBytecode(name)),
        }
    }

    /// Begins the preparation.
    pub fn start(&mut self) -> (step: LaunchStep)
        ensures
            (final(self)@, step@) == at_unit(old(self)@, 0),
    {
        self.begin_unit(0)
    }

    /// Takes in what reading the bytecode file of a unit came to.
    pub fn bytecode_read(&mut self, read: Result<String, ReadFailure>) -> (step: LaunchStep)
        requires
            old(self)@.well_formed(),
            old(self)@.stage is ReadingBytecode,
        ensures
            (final(self)@, step@) == after_bytecode(
                old(self)@,
                old(self)@.stage->ReadingBytecode_0,
                read_view(read),
            ),
    {
        match self.stage {
            LaunchStage::ReadingBytecode(i) => match read {
                Ok(bytecode) => {
                    self.bytecode = bytecode;
                    let name = self.units[i].name.clone();
                    self.go_on(
                        LaunchStage::LoadingDebugInfo(i),
                        LaunchAction::LoadDebugInfo(name),
                    )
                },
                Err(failure) => self.give_up(
                    sentence(
                        "Failed to read bytecode at ",
                        failure.path.as_str(),
                        ": ",
                        failure.reason.as_str(),
                    ),
                ),
            },
            _ => self.give_up(String::new()),
        }
    }

    /// Takes in what looking for the debug map of a unit came to.
    pub fn debug_info_loaded(&mut self, loaded: Result<Option<ProgramDebugMap>, String>) -> (step:
        LaunchStep)
        requires
            old(self)@.well_formed(),
            old(self)@.stage is LoadingDebugInfo,
        ensures
            (final(self)@, step@) == after_debug_info(
                old(self)@,
                old(self)@.stage->LoadingDebugInfo_0,
                load_view(loaded),
            ),
    {
        match self.stage {
            LaunchStage::LoadingDebugInfo(i) => match loaded {
                Ok(debug_info) => {
                    let name = with_aleo_suffix(self.units[i].name.as_str());
                    let bytecode = self.bytecode.clone();
                    assert(i < self.units.len());
                    let next: usize = i + 1;
                    self.push_source(name, bytecode, debug_info);
                    self.begin_unit(next)
                },
                Err(reason) => {
                    let text = sentence(
                        "Failed to load debug info for '",
                        self.units[i].name.as_str(),
                        "': ",
                        reason.as_str(),
                    );
                    self.give_up(text)
                },
            },
            _ => self.give_up(String::new()),
        }
    }

    /// Takes in what there is at the path that an entry of the command line may be.
    pub fn path_inspected(&mut self, kind: PathKind) -> (step: LaunchStep)
        requires
            old(self)@.well_formed(),
            old(self)@.stage is Inspecting,
        ensures
            (final(self)@, step@) == after_inspection(
                old(self)@,
                old(self)@.stage->Inspecting_0,
                kind,
            ),
    {
        match self.stage {
            LaunchStage::Inspecting(i) => {
                let entry = self.with[i].clone();
                match kind {
                    PathKind::File => {
                        let mut notice = "📂 Loading local program from ".to_string();
                        notice.append(entry.as_str());
                        notice.append("...");
                        let step = self.go_on(
                            LaunchStage::ReadingFile(i),
                            LaunchAction::ReadProgramFile(entry),
                        );
                        LaunchStep { notice: Some(notice), action: step.action }
                    },
                    PathKind::Other => {
                        let mut text = "'".to_string();
                        text.append(entry.as_str());
                        text.append("' exists but is not a file.");
                        self.give_up(text)
                    },
                    PathKind::Missing => self.go_on(
                        LaunchStage::FindingEndpoint(i),
                        LaunchAction::FindEndpoint,
                    ),
                }
            },
            _ => self.give_up(String::new()),
        }
    }

    /// Takes in what parsing a program file came to: the program's ID, or why there is none.
    pub fn program_parsed(&mut self, bytecode: String, id: Result<String, String>) -> (step:
        LaunchStep)
        requires
            old(self)@.well_formed(),
            old(self)@.stage is ReadingFile,
        ensures
            (final(self)@, step@) == after_program_file(
                old(self)@,
                old(self)@.stage->ReadingFile_0,
                bytecode@,
                result_text(id),
            ),
    {
        match self.stage {
            LaunchStage::ReadingFile(i) => match id {
                Ok(name) => {
                    assert(i < self.with.len());
                    let next: usize = i + 1;
                    self.push_source(name, bytecode, None);
                    self.begin_entry(next)
                },
                Err(reason) => {
                    let text = sentence(
                        "Failed to parse program from '",
                        self.with[i].as_str(),
                        "': ",
                        reason.as_str(),
                    );
                    self.give_up(text)
                },
            },
            _ => self.give_up(String::new()),
        }
    }

    /// Takes in what reading a program file came to.
    pub fn program_file_read(&mut self, read: Result<String, String>) -> (step: LaunchStep)
        requires
            old(self)@.well_formed(),
            old(self)@.stage is ReadingFile,
            read is Ok ==> is_readable_program(read->Ok_0@),
        ensures
            match read {
                Ok(bytecode) => (final(self)@, step@) == after_program_file(
                    old(self)@,
                    old(self)@.stage->ReadingFile_0,
                    bytecode@,
                    id_in(bytecode@),
                ),
                Err(reason) => (final(self)@, step@) == given_up(
                    old(self)@,
                    "Failed to read program file '"@
                        + old(self)@.with[old(self)@.stage->ReadingFile_0 as int] + "': "@
                        + reason@,
                ),
            },
    {
        match read {
            Ok(bytecode) => {
                let id = match read_program(bytecode.as_str()) {
                    Ok(outline) => Ok(outline.id),
                    Err(reason) => Err(reason),
                };
                self.program_parsed(bytecode, id)
            },
            Err(reason) => match self.stage {
                LaunchStage::ReadingFile(i) => {
                    let text = sentence(
                        "Failed to read program file '",
                        self.with[i].as_str(),
                        "': ",
                        reason.as_str(),
                    );
                    self.give_up(text)
                },
                _ => self.give_up(String::new()),
            },
        }
    }

    /// Takes in whether the name of an entry is a program ID, the endpoint being known.
    pub fn program_id_parsed(&mut self, endpoint: String, id: Result<String, String>) -> (step:
        LaunchStep)
        requires
            old(self)@.well_formed(),
            old(self)@.stage is FindingEndpoint,
        ensures
            (final(self)@, step@) == after_program_id(
                old(self)@,
                old(self)@.stage->FindingEndpoint_0,
                endpoint@,
                result_text(id),
            ),
    {
        match self.stage {
            LaunchStage::FindingEndpoint(i) => {
                let name = with_aleo_suffix(self.with[i].as_str());
                let mut notice = sentence(
                    "⬇️  Fetching remote program ",
                    name.as_str(),
                    " and its dependencies from ",
                    endpoint.as_str(),
                );
                notice.append("...");
                let step = match id {
                    Ok(program_id) => self.go_on(
                        LaunchStage::Fetching(i),
                        LaunchAction::Fetch { program_id, endpoint },
                    ),
                    Err(reason) => self.give_up(
                        sentence(
                            "Failed to parse program ID '",
                            name.as_str(),
                            "': ",
                            reason.as_str(),
                        ),
                    ),
                };
                LaunchStep { notice: Some(notice), action: step.action }
            },
            _ => self.give_up(String::new()),
        }
    }

    /// Takes in the endpoint of the network, or why there is none.
    pub fn endpoint_found(&mut self, endpoint: Result<String, String>) -> (step: LaunchStep)
        requires
            old(self)@.well_formed(),
            old(self)@.stage is FindingEndpoint,
        ensures
            match endpoint {
                Ok(endpoint) => (final(self)@, step@) == after_program_id(
                    old(self)@,
                    old(self)@.stage->FindingEndpoint_0,
                    endpoint@,
                    program_id_of(
                        suffixed(old(self)@.with[old(self)@.stage->FindingEndpoint_0 as int]),
                    ),
                ),
                Err(reason) => (final(self)@, step@) == given_up(old(self)@, reason@),
            },
    {
        match endpoint {
            Err(reason) => self.give_up(reason),
            Ok(endpoint) => match self.stage {
                LaunchStage::FindingEndpoint(i) => {
                    let name = with_aleo_suffix(self.with[i].as_str());
                    let id = read_program_id(name.as_str());
                    self.program_id_parsed(endpoint, id)
                },
                _ => self.give_up(String::new()),
            },
        }
    }

    /// Takes in the programs that have been fetched, or why there are none.
    pub fn programs_fetched(&mut self, fetched: Result<Vec<FetchedProgram>, String>) -> (step:
        LaunchStep)
        requires
            old(self)@.well_formed(),
            old(self)@.stage is Fetching,
        ensures
            (final(self)@, step@) == after_fetch(
                old(self)@,
                old(self)@.stage->Fetching_0,
                match fetched {
                    Ok(programs) => Ok(fetched_views(programs@)),
                    Err(reason) => Err(reason@),
                },
            ),
    {
        match self.stage {
            LaunchStage::Fetching(i) => match fetched {
                Err(reason) => self.give_up(reason),
                Ok(programs) => {
                    let ghost all = programs@;
                    let ghost before = self@;
                    assert(i < self.with.len());
                    let next: usize = i + 1;
                    assert(before.programs + fetched_views(all).take(0) == before.programs);
                    for program in it: programs
                        invariant
                            it.seq() == all,
                            self@ == (LaunchView {
                                programs: before.programs + fetched_views(all).take(
                                    it.index() as int,
                                ),
                                ..before
                            }),
                    {
                        let FetchedProgram { name, bytecode } = program;
                        self.push_source(name, bytecode, None);
                        proof {
                            let n = it.index() as int;
                            assert(fetched_views(all).take(n + 1) == fetched_views(all).take(
                                n,
                            ).push(fetched_views(all)[n]));
                            assert(self@.programs == before.programs + fetched_views(all).take(
                                n + 1,
                            ));
                        }
                    }
                    assert(fetched_views(all).take(all.len() as int) == fetched_views(all));
                    self.begin_entry(next)
                },
            },
            _ => self.give_up(String::new()),
        }
    }
}

/// Whether a session that has been configured is what the preparation came to: its programs, its call,
/// and as breakpoints those of the command line and, behind them, the first instruction of the
/// function that is to be debugged.
pub open spec fn is_configured(launch: LaunchView, keys: Seq<KeyView>, config: SessionConfig) -> bool {
    &&& source_views(config.programs@) == launch.programs
    &&& config.program_id@ == launch.program_name
    &&& config.function_name@ == launch.function_name
    &&& texts(config.inputs@) == launch.inputs
    &&& key_views(config.initial_breakpoints@) == keys.push(
        entry_point(launch.program_name, launch.function_name),
    )
}

/// What configuring a session comes to: the session, or what is wrong with the first breakpoint that
/// is not in order.
pub open spec fn configures(
    launch: LaunchView,
    tables: Seq<Seq<Option<Seq<char>>>>,
    result: Result<SessionConfig, String>,
) -> bool {
    match all_breakpoints(launch.breakpoints, known_sources(launch.programs), tables, 0) {
        Ok(keys) => result is Ok && is_configured(launch, keys, result->Ok_0),
        Err(message) => result is Err && result->Err_0@ == message,
    }
}

impl Launch {
    /// The instructions that the breakpoints of the command line stand for.
    fn resolve_all(&self, tables: &Vec<Vec<Option<String>>>) -> (result: Result<
        Vec<BreakpointKey>,
        String,
    >)
        requires
            are_tables_for(known_sources(self@.programs), table_views(tables@)),
        ensures
            match result {
                Ok(keys) => Ok(key_views(keys@)),
                Err(message) => Err(message@),
            } == all_breakpoints(
                self@.breakpoints,
                known_sources(self@.programs),
                table_views(tables@),
                0,
            ),
    {
        let ghost specs = self@.breakpoints;
        let ghost known = known_sources(self@.programs);
        let ghost names = table_views(tables@);
        let mut keys: Vec<BreakpointKey> = Vec::new();
        let mut i: usize = 0;
        while i < self.breakpoints.len()
            invariant
                i <= self.breakpoints.len(),
                specs == texts(self.breakpoints@),
                known == known_sources(source_views(self.programs@)),
                names == table_views(tables@),
                are_tables_for(known, names),
                all_breakpoints(specs, known, names, 0) == (match all_breakpoints(
                    specs,
                    known,
                    names,
                    i as int,
                ) {
                    Ok(rest) => Ok(key_views(keys@) + rest),
                    Err(message) => Err(message),
                }),
            decreases self.breakpoints.len() - i,
        {
            let ghost before = key_views(keys@);
            assert(specs[i as int] == self.breakpoints[i as int]@);
            match resolve_with_names(self.breakpoints[i].as_str(), &self.programs, tables) {
                Err(message) => {
                    return Err(message);
                },
                Ok(key) => {
                    keys.push(key);
                    proof {
                        assert(key_views(keys@) == before.push(key@));
                        if let Ok(rest) = all_breakpoints(specs, known, names, i + 1) {
                            assert(before + (seq![key@] + rest) == key_views(keys@) + rest);
                        }
                    }
                },
            }
            i += 1;
        }
        assert(key_views(keys@) + Seq::<KeyView>::empty() == key_views(keys@));
        Ok(keys)
    }

    /// The session that has been prepared, or what is wrong with one of the breakpoints. The tables
    /// hold the file names of the source files of those programs whose debug maps are known.
    pub fn configure_with_names(self, tables: &Vec<Vec<Option<String>>>) -> (result: Result<
        SessionConfig,
        String,
    >)
        requires
            are_tables_for(known_sources(self@.programs), table_views(tables@)),
        ensures
            configures(self@, table_views(tables@), result),
    {
        let mut initial_breakpoints = match self.resolve_all(tables) {
            Ok(keys) => keys,
            Err(message) => {
                return Err(message);
            },
        };
        let ghost keys = key_views(initial_breakpoints@);
        let entry = BreakpointKey {
            program: self.program_name.clone(),
            function: self.function_name.clone(),
            context: Context::Transition,
            index: 0,
        };
        let ghost last = entry@;
        initial_breakpoints.push(entry);
        assert(key_views(initial_breakpoints@) == keys.push(last));
        let Launch { program_name, function_name, inputs, programs, .. } = self;
        Ok(
            SessionConfig {
                programs,
                program_id: program_name,
                function_name,
                inputs,
                initial_breakpoints,
            },
        )
    }

    /// The session that has been prepared, or what is wrong with one of the breakpoints. Where the
    /// parts of a source file's path end rests with the platform, as far as `may_be_file_name` leaves
    /// it open.
    pub fn configure(self) -> (result: Result<SessionConfig, String>)
        ensures
            exists|tables: Seq<Seq<Option<Seq<char>>>>|
                {
                    &&& #[trigger] are_name_tables(known_sources(self@.programs), tables)
                    &&& configures(self@, tables, result)
                },
    {
        let tables = source_names(&self.programs);
        self.configure_with_names(&tables)
    }
}

/// The preparation of a session for a command, ready to be begun.
pub open spec fn prepared(command: LeoDebug, units: Seq<UnitView>) -> LaunchView {
    let (program_name, function_name) = target_of(command.name@, units);
    LaunchView {
        program_name,
        function_name,
        units,
        with: texts(command.with@),
        breakpoints: texts(command.breakpoints@),
        inputs: texts(command.inputs@),
        programs: Seq::empty(),
        bytecode: Seq::empty(),
        stage: LaunchStage::Ready,
    }
}

/// The preparation of a session for the command and the units of the package, ready to be begun.
pub fn handle_debug(command: LeoDebug, units: Vec<Unit>) -> (launch: Launch)
    requires
        name_parts(command.name@) is Some || units.len() > 0,
    ensures
        launch@ == prepared(command, unit_views(units@)),
{
    let target = find_target(command.name.as_str(), &units);
    let LeoDebug { name: _, inputs, with, breakpoints } = command;
    let programs: Vec<ProgramSource> = Vec::new();
    assert(source_views(programs@) == Seq::<SourceView>::empty());
    Launch {
        program_name: target.program,
        function_name: target.function,
        units,
        with,
        breakpoints,
        inputs,
        programs,
        bytecode: String::new(),
        stage: LaunchStage::Ready,
    }
}

/// Why a package cannot be debugged, if it cannot: it is a library, or it is built for a network other
/// than the one that is supported. That the network is not known is no reason.
pub open spec fn refusal(units: Seq<UnitView>, network: Result<NetworkName, Seq<char>>) -> Option<
    Seq<char>,
> {
    if units.len() > 0 && units.last().is_library {
        Some("`leo debug` does not support library packages."@)
    } else if network is Ok && network->Ok_0 != NetworkName::TestnetV0 {
        Some("`leo debug` only supports TestnetV0."@)
    } else {
        None
    }
}

/// What is known of the network.
pub open spec fn network_view(network: Result<NetworkName, String>) -> Result<
    NetworkName,
    Seq<char>,
> {
    match network {
        Ok(name) => Ok(name),
        Err(reason) => Err(reason@),
    }
}

impl LeoDebug {
    /// The preparation of a session for the units of the package, ready to be begun, or why the
    /// package cannot be debugged.
    pub fn apply(self, units: Vec<Unit>, network: Result<NetworkName, String>) -> (result: Result<
        Launch,
        String,
    >)
        requires
            name_parts(self.name@) is Some || units.len() > 0 || refusal(
                unit_views(units@),
                network_view(network),
            ) is Some,
        ensures
            match refusal(unit_views(units@), network_view(network)) {
                Some(reason) => result is Err && result->Err_0@ == reason,
                None => result is Ok && result->Ok_0@ == prepared(self, unit_views(units@)),
            },
    {
        if units.len() > 0 {
            assert(unit_views(units@).last() == units@.last()@);
            if units[units.len() - 1].is_library {
                return Err("`leo debug` does not support library packages.".to_string());
            }
        }
        if let Ok(name) = network {
            if name != NetworkName::TestnetV0 {
                return Err("`leo debug` only supports TestnetV0.".to_string());
            }
        }
        Ok(handle_debug(self, units))
    }
}

/// Adding the ending twice is adding it once, and the ending is there.
pub proof fn law_suffix_is_added_once(name: Seq<char>)
    ensures
        suffixed(suffixed(name)) == suffixed(name),
        ".aleo"@.is_suffix_of(suffixed(name)),
{
    let full = name + ".aleo"@;
    let n = ".aleo"@.len() as int;
    assert(full.subrange(full.len() - n, full.len() as int) == ".aleo"@);
}

/// How much is left to be done, at most.
pub open spec fn work_left(launch: LaunchView) -> int {
    let units = launch.units.len() as int;
    let entries = launch.with.len() as int;
    match launch.stage {
        LaunchStage::Ready => 2 * units + 3 * entries + 2,
        LaunchStage::ReadingBytecode(i) => 2 * (units - i) + 3 * entries + 1,
        LaunchStage::LoadingDebugInfo(i) => 2 * (units - i) + 3 * entries,
        LaunchStage::Inspecting(i) => 3 * (entries - i) + 1,
        LaunchStage::ReadingFile(i) => 3 * (entries - i),
        LaunchStage::FindingEndpoint(i) => 3 * (entries - i),
        LaunchStage::Fetching(i) => 3 * (entries - i) - 1,
        LaunchStage::Complete => 0,
        LaunchStage::Failed => 0,
    }
}

/// Whether a step of the preparation is in order: what it is about next is there, less is left to be
/// done than before, the programs loaded so far are kept, and so is what the command asks for.
pub open spec fn advances(before: LaunchView, after: LaunchView) -> bool {
    &&& after.well_formed()
    &&& 0 <= work_left(after) < work_left(before)
    &&& before.programs.is_prefix_of(after.programs)
    &&& after == (LaunchView {
        programs: after.programs,
        bytecode: after.bytecode,
        stage: after.stage,
        ..before
    })
}

pub proof fn lemma_next_unit(units: Seq<UnitView>, from: int)
    requires
        0 <= from,
    ensures
        match next_unit(units, from) {
            Some(i) => from <= i < units.len() && !units[i].is_library && (forall|j: int|
                from <= j < i ==> (#[trigger] units[j]).is_library),
            None => forall|j: int| from <= j < units.len() ==> (#[trigger] units[j]).is_library,
        },
    decreases units.len() - from,
{
    if from < units.len() && units[from].is_library {
        lemma_next_unit(units, from + 1);
    }
}

/// The units are loaded in their order, and libraries are passed over.
pub proof fn law_libraries_are_passed_over(launch: LaunchView, from: int)
    requires
        0 <= from,
        launch.units.len() <= usize::MAX,
    ensures
        ({
            let stage = at_unit(launch, from).0.stage;
            let next = match stage {
                LaunchStage::ReadingBytecode(i) => i as int,
                LaunchStage::LoadingDebugInfo(i) => i as int,
                _ => launch.units.len() as int,
            };
            &&& forall|j: int| from <= j < next ==> (#[trigger] launch.units[j]).is_library
            &&& next < launch.units.len() ==> from <= next && !launch.units[next].is_library
        }),
{
    lemma_next_unit(launch.units, from);
}

/// The preparation comes to an end: whatever the answers, every step brings it closer, and nothing
/// that has been loaded is lost.
pub proof fn law_preparation_ends(
    launch: LaunchView,
    i: usize,
    read: Result<Seq<char>, (Seq<char>, Seq<char>)>,
    loaded: Result<Option<ProgramDebugMap>, Seq<char>>,
    kind: PathKind,
    bytecode: Seq<char>,
    endpoint: Seq<char>,
    id: Result<Seq<char>, Seq<char>>,
    fetched: Result<Seq<SourceView>, Seq<char>>,
)
    requires
        launch.well_formed(),
        launch.units.len() <= usize::MAX,
        launch.with.len() <= usize::MAX,
    ensures
        launch.stage is Ready ==> advances(launch, at_unit(launch, 0).0),
        launch.stage == LaunchStage::ReadingBytecode(i) ==> advances(
            launch,
            after_bytecode(launch, i, read).0,
        ),
        launch.stage == LaunchStage::LoadingDebugInfo(i) ==> advances(
            launch,
            after_debug_info(launch, i, loaded).0,
        ),
        launch.stage == LaunchStage::Inspecting(i) ==> advances(
            launch,
            after_inspection(launch, i, kind).0,
        ),
        launch.stage == LaunchStage::ReadingFile(i) ==> advances(
            launch,
            after_program_file(launch, i, bytecode, id).0,
        ),
        launch.stage == LaunchStage::FindingEndpoint(i) ==> advances(
            launch,
            after_program_id(launch, i, endpoint, id).0,
        ),
        launch.stage == LaunchStage::Fetching(i) ==> advances(
            launch,
            after_fetch(launch, i, fetched).0,
        ),
{
    lemma_next_unit(launch.units, 0);
    lemma_next_unit(launch.units, i + 1);
}

/// The first instruction of the function that is debugged is always a breakpoint, and so is every
/// instruction that a breakpoint of the command line stands for.
pub proof fn law_session_stops_at_the_entry(
    launch: LaunchView,
    tables: Seq<Seq<Option<Seq<char>>>>,
    config: SessionConfig,
)
    requires
        configures(launch, tables, Ok(config)),
    ensures
        key_views(config.initial_breakpoints@).contains(
            entry_point(launch.program_name, launch.function_name),
        ),
        config.initial_breakpoints@.len() == launch.breakpoints.len() + 1,
        forall|i: int|
            0 <= i < launch.breakpoints.len() ==> breakpoint_for(
                #[trigger] launch.breakpoints[i],
                known_sources(launch.programs),
                tables,
            ) == Ok::<KeyView, Seq<char>>(key_views(config.initial_breakpoints@)[i]),
{
    let known = known_sources(launch.programs);
    lemma_all_breakpoints(launch.breakpoints, known, tables, 0);
    let keys = key_views(config.initial_breakpoints@);
    assert(keys.last() == entry_point(launch.program_name, launch.function_name));
    let resolved = all_breakpoints(launch.breakpoints, known, tables, 0)->Ok_0;
    assert forall|i: int| 0 <= i < launch.breakpoints.len() implies breakpoint_for(
        #[trigger] launch.breakpoints[i],
        known,
        tables,
    ) == Ok::<KeyView, Seq<char>>(keys[i]) by {
        assert(keys[i] == resolved[i]);
    }
}

pub proof fn lemma_all_breakpoints(
    specs: Seq<Seq<char>>,
    known: Seq<(Seq<char>, ProgramDebugMap)>,
    tables: Seq<Seq<Option<Seq<char>>>>,
    from: int,
)
    requires
        0 <= from <= specs.len(),
        all_breakpoints(specs, known, tables, from) is Ok,
    ensures
        ({
            let keys = all_breakpoints(specs, known, tables, from)->Ok_0;
            &&& keys.len() == specs.len() - from
            &&& forall|i: int|
                from <= i < specs.len() ==> breakpoint_for(#[trigger] specs[i], known, tables)
                    == Ok::<KeyView, Seq<char>>(keys[i - from])
        }),
    decreases specs.len() - from,
{
    if from < specs.len() {
        lemma_all_breakpoints(specs, known, tables, from + 1);
    }
}

/// A breakpoint means the same on the command line and on the console: if the programs have different
/// names, it is resolved against the same debug maps in both places.
pub proof fn law_breakpoints_mean_the_same_everywhere(
    programs: Seq<ProgramSource>,
    spec: Seq<char>,
    tables: Seq<Seq<Option<Seq<char>>>>,
)
    requires
        forall|i: int, j: int|
            0 <= i < j < programs.len() ==> (#[trigger] programs[i]).name@ != (
            #[trigger] programs[j]).name@,
    ensures
        ({
            let loaded = loaded_programs(programs, programs.len() as int);
            breakpoint_for(spec, known_models(loaded), tables) == breakpoint_for(
                spec,
                known_sources(source_views(programs)),
                tables,
            )
        }),
{
    lemma_loaded_in_order(programs, programs.len() as int);
    let loaded = loaded_programs(programs, programs.len() as int);
    let sources = source_views(programs);
    assert(Seq::new(loaded.len(), |i: int| (loaded[i].name, loaded[i].debug_info)) == Seq::new(
        sources.len(),
        |i: int| (sources[i].name, sources[i].debug_info),
    ));
}

proof fn lemma_loaded_in_order(programs: Seq<ProgramSource>, n: int)
    requires
        0 <= n <= programs.len(),
        forall|i: int, j: int|
            0 <= i < j < programs.len() ==> (#[trigger] programs[i]).name@ != (
            #[trigger] programs[j]).name@,
    ensures
        loaded_programs(programs, n).len() == n,
        forall|i: int|
            0 <= i < n ==> #[trigger] loaded_programs(programs, n)[i] == fresh_program(programs[i]),
    decreases n,
{
    if n > 0 {
        let before = loaded_programs(programs, n - 1);
        lemma_loaded_in_order(programs, n - 1);
        lemma_program_index(before, programs[n - 1].name@, 0);
        if let Some(i) = program_index(before, programs[n - 1].name@, 0) {
            assert(before[i] == fresh_program(programs[i]));
            assert(programs[i].name@ != programs[n - 1].name@);
        }
    }
}

} // verus!
