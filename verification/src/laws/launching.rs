//! From the command line to the session.
use vstd::prelude::*;

use crate::breakpoints::{key_views, KeyView};
use crate::debug::{
    after_bytecode, after_debug_info, after_fetch, after_inspection, after_program_file,
    after_program_id, all_breakpoints, at_unit, configures, fetched_views, given_up, id_in,
    key_notice, known_sources, lemma_all_breakpoints, lemma_next_unit, prepared, refusal,
    source_views, suffixed, target_of, FetchedProgram, LaunchActionView, LaunchStage, LaunchView,
    LeoDebug, NetworkName, PathKind, SourceView, StepView, UnitView,
};
use crate::debug_info::{loaded, Found};
use crate::debug_map::ProgramDebugMap;
use crate::hook::Context;
use crate::laws::reading::{law_parted_at_the_first_match, stands_at};
use crate::locate::{breakpoint_for, known_in};
use crate::session::SessionConfig;
use crate::text::texts;
use crate::tui::{known_models, ProgramModel};
use crate::vm::outline_of;

verus! {

/// Whether `full` is the name with the ending `.aleo`, which is added if the name does not have it.
pub open spec fn is_full_name(full: Seq<char>, name: Seq<char>) -> bool {
    if ".aleo"@.is_suffix_of(name) {
        full == name
    } else {
        full == name + ".aleo"@
    }
}

/// A name with a slash stands for the program before the first slash and the function behind it.
pub proof fn law_target_with_a_slash(
    program: Seq<char>,
    function: Seq<char>,
    units: Seq<UnitView>,
)
    requires
        !program.contains('/'),
    ensures
        ({
            let target = target_of(program + "/"@ + function, units);
            is_full_name(target.0, program) && target.1 == function
        }),
{
    reveal_strlit("/");
    let name = program + "/"@ + function;
    let i = program.len() as int;
    assert(stands_at(name, "/"@, i));
    assert forall|j: int| 0 <= j < i implies !#[trigger] stands_at(name, "/"@, j) by {
        assert(program.contains(program[j]));
        if stands_at(name, "/"@, j) {
            assert("/"@[0] == name[j + 0]);
        }
    }
    law_parted_at_the_first_match(name, "/"@, i);
    assert(name.take(i) =~= program);
    assert(name.skip(i + 1) =~= function);
}

/// A name without a slash and with a double colon stands for the program before the first double colon
/// and the function behind it.
pub proof fn law_target_with_a_double_colon(
    program: Seq<char>,
    function: Seq<char>,
    units: Seq<UnitView>,
)
    requires
        !program.contains('/'),
        !function.contains('/'),
        forall|j: int|
            0 <= j < program.len() ==> !#[trigger] stands_at(
                program + "::"@ + function,
                "::"@,
                j,
            ),
    ensures
        ({
            let target = target_of(program + "::"@ + function, units);
            is_full_name(target.0, program) && target.1 == function
        }),
{
    reveal_strlit("::");
    reveal_strlit("/");
    let name = program + "::"@ + function;
    let i = program.len() as int;
    lemma_no_slash(name);
    assert(stands_at(name, "::"@, i));
    law_parted_at_the_first_match(name, "/"@, 0);
    law_parted_at_the_first_match(name, "::"@, i);
    assert(name.take(i) =~= program);
    assert(name.skip(i + 2) =~= function);
}

/// A name with neither is a function of the package's last unit.
pub proof fn law_target_in_the_package(name: Seq<char>, units: Seq<UnitView>)
    requires
        !name.contains('/'),
        forall|j: int| !#[trigger] stands_at(name, "::"@, j),
        units.len() > 0,
    ensures
        is_full_name(target_of(name, units).0, units[units.len() - 1].name),
        target_of(name, units).1 == name,
{
    reveal_strlit("::");
    reveal_strlit("/");
    lemma_no_slash(name);
    law_parted_at_the_first_match(name, "/"@, 0);
    law_parted_at_the_first_match(name, "::"@, 0);
}

proof fn lemma_no_slash(name: Seq<char>)
    requires
        forall|i: int| 0 <= i < name.len() ==> #[trigger] name[i] != '/',
    ensures
        forall|j: int| !#[trigger] stands_at(name, "/"@, j),
{
    reveal_strlit("/");
    assert forall|j: int| !#[trigger] stands_at(name, "/"@, j) by {
        if stands_at(name, "/"@, j) {
            assert("/"@[0] == name[j + 0]);
        }
    }
}

/// What the surroundings answer to what the preparation asks for.
pub enum Answer {
    Begin,
    Bytecode(Result<Seq<char>, (Seq<char>, Seq<char>)>),
    DebugInfo(Result<Option<ProgramDebugMap>, Seq<char>>),
    Path(PathKind),
    ProgramFile(Seq<char>, Result<Seq<char>, Seq<char>>),
    Endpoint(Seq<char>, Result<Seq<char>, Seq<char>>),
    Fetched(Result<Seq<SourceView>, Seq<char>>),
    Failure(Seq<char>),
}

/// Whether the preparation goes from one state to the other with the answer.
pub open spec fn goes(before: LaunchView, answer: Answer, after: LaunchView) -> bool {
    match (before.stage, answer) {
        (LaunchStage::Ready, Answer::Begin) => after == at_unit(before, 0).0,
        (LaunchStage::ReadingBytecode(i), Answer::Bytecode(read)) => after == after_bytecode(
            before,
            i,
            read,
        ).0,
        (LaunchStage::LoadingDebugInfo(i), Answer::DebugInfo(loaded)) => after == after_debug_info(
            before,
            i,
            loaded,
        ).0,
        (LaunchStage::Inspecting(i), Answer::Path(kind)) => after == after_inspection(
            before,
            i,
            kind,
        ).0,
        (LaunchStage::ReadingFile(i), Answer::ProgramFile(bytecode, id)) => after
            == after_program_file(before, i, bytecode, id).0,
        (LaunchStage::FindingEndpoint(i), Answer::Endpoint(endpoint, id)) => after
            == after_program_id(before, i, endpoint, id).0,
        (LaunchStage::Fetching(i), Answer::Fetched(fetched)) => after == after_fetch(
            before,
            i,
            fetched,
        ).0,
        (LaunchStage::ReadingFile(_), Answer::Failure(reason))
        | (LaunchStage::FindingEndpoint(_), Answer::Failure(reason)) => after == given_up(
            before,
            reason,
        ).0,
        _ => false,
    }
}

/// Whether the states are those of a preparation for the command, with these answers on the way.
pub open spec fn is_preparation(
    command: LeoDebug,
    units: Seq<UnitView>,
    states: Seq<LaunchView>,
    answers: Seq<Answer>,
) -> bool {
    &&& states.len() > 0
    &&& answers.len() == states.len() - 1
    &&& states[0] == prepared(command, units)
    &&& forall|k: int|
        0 <= k < answers.len() ==> goes(states[k], #[trigger] answers[k], states[k + 1])
}

proof fn lemma_command_is_kept(
    command: LeoDebug,
    units: Seq<UnitView>,
    states: Seq<LaunchView>,
    answers: Seq<Answer>,
    k: int,
)
    requires
        is_preparation(command, units, states, answers),
        0 <= k < states.len(),
    ensures
        states[k].inputs.len() == command.inputs@.len(),
        forall|i: int|
            0 <= i < command.inputs@.len() ==> #[trigger] states[k].inputs[i]
                == command.inputs@[i]@,
        states[k].breakpoints.len() == command.breakpoints@.len(),
        forall|i: int|
            0 <= i < command.breakpoints@.len() ==> #[trigger] states[k].breakpoints[i]
                == command.breakpoints@[i]@,
        states[k].with.len() == command.with@.len(),
        forall|i: int|
            0 <= i < command.with@.len() ==> #[trigger] states[k].with[i] == command.with@[i]@,
        states[k].units == units,
        states[k].program_name == target_of(command.name@, units).0,
        states[k].function_name == target_of(command.name@, units).1,
    decreases k,
{
    if k > 0 {
        lemma_command_is_kept(command, units, states, answers, k - 1);
        assert(goes(states[k - 1], answers[k - 1], states[k]));
    }
}

/// Whatever the package and the answers on the way, the session gets the inputs of the command line,
/// all of them and in their order, and the target that the command names. Its breakpoints are those of
/// the command line, in their order, and one more at the first instruction of the target.
pub proof fn law_command_reaches_the_session(
    command: LeoDebug,
    units: Seq<UnitView>,
    states: Seq<LaunchView>,
    answers: Seq<Answer>,
    tables: Seq<Seq<Option<Seq<char>>>>,
    config: SessionConfig,
)
    requires
        is_preparation(command, units, states, answers),
        configures(states.last(), tables, Ok(config)),
    ensures
        config.inputs@.len() == command.inputs@.len(),
        forall|i: int|
            0 <= i < command.inputs@.len() ==> (#[trigger] config.inputs@[i])@
                == command.inputs@[i]@,
        (config.program_id@, config.function_name@) == target_of(command.name@, units),
        config.initial_breakpoints@.len() == command.breakpoints@.len() + 1,
        forall|i: int|
            0 <= i < command.breakpoints@.len() ==> breakpoint_for(
                (#[trigger] command.breakpoints@[i])@,
                known_sources(source_views(config.programs@)),
                tables,
            ) == Ok::<KeyView, Seq<char>>(config.initial_breakpoints@[i]@),
        ({
            let entry = config.initial_breakpoints@[config.initial_breakpoints@.len() - 1];
            &&& entry.program@ == config.program_id@
            &&& entry.function@ == config.function_name@
            &&& entry.context == Context::Transition
            &&& entry.index == 0
        }),
        source_views(config.programs@) == states.last().programs,
        config.programs@.len() == states.last().programs.len(),
        forall|i: int|
            0 <= i < config.programs@.len() ==> {
                &&& (#[trigger] config.programs@[i]).name@ == states.last().programs[i].name
                &&& config.programs@[i].bytecode@ == states.last().programs[i].bytecode
                &&& config.programs@[i].debug_info == states.last().programs[i].debug_info
            },
{
    let n = states.len() - 1;
    lemma_command_is_kept(command, units, states, answers, n as int);
    let launch = states.last();
    let known = known_sources(launch.programs);
    lemma_all_breakpoints(launch.breakpoints, known, tables, 0);
    let keys = all_breakpoints(launch.breakpoints, known, tables, 0)->Ok_0;
    let views = key_views(config.initial_breakpoints@);
    assert(source_views(config.programs@).len() == config.programs@.len());
    assert forall|i: int| 0 <= i < config.programs@.len() implies {
        &&& (#[trigger] config.programs@[i]).name@ == launch.programs[i].name
        &&& config.programs@[i].bytecode@ == launch.programs[i].bytecode
        &&& config.programs@[i].debug_info == launch.programs[i].debug_info
    } by {
        assert(source_views(config.programs@)[i] == launch.programs[i]);
    }
    assert(texts(config.inputs@) == launch.inputs);
    assert forall|i: int| 0 <= i < command.inputs@.len() implies (#[trigger] config.inputs@[i])@
        == command.inputs@[i]@ by {
        assert(texts(config.inputs@)[i] == launch.inputs[i]);
    }
    assert(views.len() == keys.len() + 1);
    assert(views.len() == config.initial_breakpoints@.len());
    assert forall|i: int| 0 <= i < command.breakpoints@.len() implies breakpoint_for(
        (#[trigger] command.breakpoints@[i])@,
        known,
        tables,
    ) == Ok::<KeyView, Seq<char>>(config.initial_breakpoints@[i]@) by {
        assert(launch.breakpoints[i] == command.breakpoints@[i]@);
        assert(views[i] == keys[i]);
        assert(views[i] == config.initial_breakpoints@[i]@);
        assert(breakpoint_for(launch.breakpoints[i], known, tables) == Ok::<KeyView, Seq<char>>(
            keys[i - 0],
        ));
    }
    assert(views[views.len() - 1] == config.initial_breakpoints@[views.len() - 1]@);
}

/// If a breakpoint of the command line is not in order, there is no session, and what is wrong with the
/// first such breakpoint is said.
pub proof fn law_first_bad_breakpoint_is_told(
    launch: LaunchView,
    tables: Seq<Seq<Option<Seq<char>>>>,
    result: Result<SessionConfig, String>,
    k: int,
    message: Seq<char>,
)
    requires
        configures(launch, tables, result),
        0 <= k < launch.breakpoints.len(),
        breakpoint_for(launch.breakpoints[k], known_sources(launch.programs), tables) == Err::<
            KeyView,
            Seq<char>,
        >(message),
        forall|i: int|
            0 <= i < k ==> breakpoint_for(
                #[trigger] launch.breakpoints[i],
                known_sources(launch.programs),
                tables,
            ) is Ok,
    ensures
        result is Err,
        result->Err_0@ == message,
{
    lemma_first_bad(launch.breakpoints, known_sources(launch.programs), tables, 0, k, message);
}

proof fn lemma_first_bad(
    specs: Seq<Seq<char>>,
    known: Seq<(Seq<char>, ProgramDebugMap)>,
    tables: Seq<Seq<Option<Seq<char>>>>,
    from: int,
    k: int,
    message: Seq<char>,
)
    requires
        0 <= from <= k < specs.len(),
        breakpoint_for(specs[k], known, tables) == Err::<KeyView, Seq<char>>(message),
        forall|i: int| from <= i < k ==> breakpoint_for(#[trigger] specs[i], known, tables) is Ok,
    ensures
        all_breakpoints(specs, known, tables, from) == Err::<Seq<KeyView>, Seq<char>>(message),
    decreases k - from,
{
    if from < k {
        assert(breakpoint_for(specs[from], known, tables) is Ok);
        lemma_first_bad(specs, known, tables, from + 1, k, message);
    }
}

/// If all the breakpoints of the command line are in order, there is a session.
pub proof fn law_session_is_configured(
    launch: LaunchView,
    tables: Seq<Seq<Option<Seq<char>>>>,
    result: Result<SessionConfig, String>,
)
    requires
        configures(launch, tables, result),
        forall|i: int|
            0 <= i < launch.breakpoints.len() ==> breakpoint_for(
                #[trigger] launch.breakpoints[i],
                known_sources(launch.programs),
                tables,
            ) is Ok,
    ensures
        result is Ok,
{
    lemma_none_bad(launch.breakpoints, known_sources(launch.programs), tables, 0);
}

proof fn lemma_none_bad(
    specs: Seq<Seq<char>>,
    known: Seq<(Seq<char>, ProgramDebugMap)>,
    tables: Seq<Seq<Option<Seq<char>>>>,
    from: int,
)
    requires
        0 <= from,
        forall|i: int|
            0 <= i < specs.len() ==> breakpoint_for(#[trigger] specs[i], known, tables) is Ok,
    ensures
        all_breakpoints(specs, known, tables, from) is Ok,
    decreases specs.len() - from,
{
    if from < specs.len() {
        assert(breakpoint_for(specs[from], known, tables) is Ok);
        lemma_none_bad(specs, known, tables, from + 1);
    }
}

/// The units before unit `n` that are no libraries, in their order.
pub open spec fn loadable(units: Seq<UnitView>, n: int) -> Seq<int>
    decreases n,
{
    if n <= 0 {
        Seq::empty()
    } else if units[n - 1].is_library {
        loadable(units, n - 1)
    } else {
        loadable(units, n - 1).push(n - 1)
    }
}

/// Whether the first programs are those of the units: one for each, in their order, under the unit's
/// full name, with its bytecode where the package brings it.
pub open spec fn are_programs_of(
    programs: Seq<SourceView>,
    units: Seq<UnitView>,
    loaded: Seq<int>,
) -> bool {
    &&& programs.len() >= loaded.len()
    &&& forall|j: int|
        0 <= j < loaded.len() ==> {
            &&& is_full_name((#[trigger] programs[j]).name, units[loaded[j]].name)
            &&& units[loaded[j]].bytecode is Some ==> programs[j].bytecode
                == units[loaded[j]].bytecode->0
        }
}

proof fn lemma_loadable_skips(units: Seq<UnitView>, from: int, to: int)
    requires
        0 <= from <= to <= units.len(),
        forall|j: int| from <= j < to ==> (#[trigger] units[j]).is_library,
    ensures
        loadable(units, to) == loadable(units, from),
    decreases to - from,
{
    if from < to {
        assert(units[to - 1].is_library);
        lemma_loadable_skips(units, from, to - 1);
    }
}

/// Whether the units have been loaded as far as the stage says.
pub open spec fn units_are_loaded(state: LaunchView) -> bool {
    let units = state.units;
    match state.stage {
        LaunchStage::Ready => state.programs.len() == 0,
        LaunchStage::ReadingBytecode(i) => {
            &&& i < units.len()
            &&& !units[i as int].is_library
            &&& units[i as int].bytecode is None
            &&& are_programs_of(state.programs, units, loadable(units, i as int))
            &&& state.programs.len() == loadable(units, i as int).len()
        },
        LaunchStage::LoadingDebugInfo(i) => {
            &&& i < units.len()
            &&& !units[i as int].is_library
            &&& units[i as int].bytecode is Some ==> state.bytecode == units[i as int].bytecode->0
            &&& are_programs_of(state.programs, units, loadable(units, i as int))
            &&& state.programs.len() == loadable(units, i as int).len()
        },
        LaunchStage::Failed => true,
        _ => are_programs_of(state.programs, units, loadable(units, units.len() as int)),
    }
}

proof fn lemma_at_unit(state: LaunchView, from: int)
    requires
        0 <= from <= state.units.len(),
        state.units.len() <= usize::MAX,
        are_programs_of(state.programs, state.units, loadable(state.units, from)),
        state.programs.len() == loadable(state.units, from).len(),
    ensures
        units_are_loaded(at_unit(state, from).0),
{
    let units = state.units;
    lemma_next_unit(units, from);
    match crate::debug::next_unit(units, from) {
        Some(i) => {
            lemma_loadable_skips(units, from, i);
        },
        None => {
            lemma_loadable_skips(units, from, units.len() as int);
        },
    }
}

/// Every unit of the package that is no library becomes a program of the session, in the order of the
/// units and before any other program, with its full name and its own bytecode.
pub proof fn law_units_are_loaded(
    command: LeoDebug,
    units: Seq<UnitView>,
    states: Seq<LaunchView>,
    answers: Seq<Answer>,
    k: int,
)
    requires
        is_preparation(command, units, states, answers),
        units.len() <= usize::MAX,
        0 <= k < states.len(),
    ensures
        units_are_loaded(states[k]),
        states[k].units == units,
    decreases k,
{
    if k > 0 {
        law_units_are_loaded(command, units, states, answers, k - 1);
        let before = states[k - 1];
        let answer = answers[k - 1];
        assert(goes(before, answer, states[k]));
        match (before.stage, answer) {
            (LaunchStage::Ready, Answer::Begin) => {
                assert(loadable(units, 0).len() == 0);
                lemma_at_unit(before, 0);
            },
            (LaunchStage::LoadingDebugInfo(i), Answer::DebugInfo(Ok(map))) => {
                let more = crate::debug::with_source(
                    before,
                    suffixed(units[i as int].name),
                    before.bytecode,
                    map,
                );
                let loaded = loadable(units, i as int);
                let longer = loadable(units, i + 1);
                assert(longer == loaded.push(i as int));
                assert forall|j: int| 0 <= j < longer.len() implies {
                    &&& is_full_name((#[trigger] more.programs[j]).name, units[longer[j]].name)
                    &&& units[longer[j]].bytecode is Some ==> more.programs[j].bytecode
                        == units[longer[j]].bytecode->0
                } by {
                    if j < loaded.len() {
                        assert(more.programs[j] == before.programs[j]);
                        assert(longer[j] == loaded[j]);
                    }
                }
                lemma_at_unit(more, i + 1);
            },
            (LaunchStage::ReadingFile(i), Answer::ProgramFile(bytecode, Ok(name))) => {
                let loaded = loadable(units, units.len() as int);
                assert forall|j: int| 0 <= j < loaded.len() implies #[trigger] states[k].programs[j]
                    == before.programs[j] by {}
            },
            (LaunchStage::Fetching(i), Answer::Fetched(Ok(fetched))) => {
                let loaded = loadable(units, units.len() as int);
                assert forall|j: int| 0 <= j < loaded.len() implies #[trigger] states[k].programs[j]
                    == before.programs[j] by {}
            },
            _ => {},
        }
    }
}

/// A unit whose bytecode file has been read gets that bytecode, and with its debug map it becomes the
/// next program. What cannot be read or loaded ends the preparation, and is named.
pub proof fn law_unit_becomes_a_program(
    launch: LaunchView,
    i: usize,
    text: Seq<char>,
    map: Option<ProgramDebugMap>,
    path: Seq<char>,
    reason: Seq<char>,
)
    ensures
        ({
            let read = after_bytecode(launch, i, Ok(text));
            &&& read.0 == (LaunchView {
                bytecode: text,
                stage: LaunchStage::LoadingDebugInfo(i),
                ..launch
            })
            &&& read.1.action == LaunchActionView::LoadDebugInfo(launch.units[i as int].name)
            &&& read.1.notice is None
        }),
        after_bytecode(launch, i, Err((path, reason))).1.action == LaunchActionView::Fail(
            "Failed to read bytecode at "@ + path + ": "@ + reason,
        ),
        ({
            let loaded = after_debug_info(launch, i, Ok(map)).0;
            &&& loaded.programs.len() == launch.programs.len() + 1
            &&& forall|j: int|
                0 <= j < launch.programs.len() ==> #[trigger] loaded.programs[j]
                    == launch.programs[j]
            &&& is_full_name(
                loaded.programs[launch.programs.len() as int].name,
                launch.units[i as int].name,
            )
            &&& loaded.programs[launch.programs.len() as int].bytecode == launch.bytecode
            &&& loaded.programs[launch.programs.len() as int].debug_info == map
        }),
        after_debug_info(launch, i, Err(reason)).1.action == LaunchActionView::Fail(
            "Failed to load debug info for '"@ + launch.units[i as int].name + "': "@ + reason,
        ),
        after_bytecode(launch, i, Err((path, reason))).0.stage == LaunchStage::Failed,
        after_debug_info(launch, i, Err(reason)).0.stage == LaunchStage::Failed,
{
}

/// The units are asked for in their order: the next one that is no library, for its debug map if the
/// package brings its bytecode and otherwise for its bytecode. Behind the last one come the further
/// programs of the command line, from the first one on.
pub proof fn law_next_unit_is_asked_for(launch: LaunchView, from: int, i: int)
    requires
        0 <= from <= i <= launch.units.len() <= usize::MAX,
        forall|j: int| from <= j < i ==> (#[trigger] launch.units[j]).is_library,
        i < launch.units.len() ==> !launch.units[i].is_library,
    ensures
        ({
            let (after, step) = at_unit(launch, from);
            &&& i < launch.units.len() && launch.units[i].bytecode is Some ==> after.stage
                == LaunchStage::LoadingDebugInfo(i as usize) && step.action
                == LaunchActionView::LoadDebugInfo(launch.units[i].name) && after.bytecode
                == launch.units[i].bytecode->0
            &&& i < launch.units.len() && launch.units[i].bytecode is None ==> after.stage
                == LaunchStage::ReadingBytecode(i as usize) && step.action
                == LaunchActionView::ReadBytecode(launch.units[i].name)
            &&& i == launch.units.len() && launch.with.len() > 0 ==> after.stage
                == LaunchStage::Inspecting(0) && step.action == LaunchActionView::Inspect(
                launch.with[0],
            )
            &&& i == launch.units.len() && launch.with.len() == 0 ==> after.stage
                == LaunchStage::Complete && step.action == LaunchActionView::Finish
            &&& after.programs == launch.programs
        }),
{
    lemma_next_unit(launch.units, from);
}

/// Whether the preparation has come to entry `i` of the command line, or to its end behind the last
/// entry.
pub open spec fn has_come_to(
    after: LaunchView,
    step: StepView,
    with: Seq<Seq<char>>,
    i: int,
) -> bool {
    if i < with.len() {
        after.stage == LaunchStage::Inspecting(i as usize) && step.action
            == LaunchActionView::Inspect(with[i])
    } else {
        after.stage == LaunchStage::Complete && step.action == LaunchActionView::Finish
    }
}

/// An entry that is a file is read and becomes one program, under the ID that its bytecode gives it;
/// one that there is nothing at is fetched, and becomes what is fetched. Then the next entry follows.
/// What fails ends the preparation, and is named.
pub proof fn law_entry_becomes_programs(
    launch: LaunchView,
    i: usize,
    bytecode: Seq<char>,
    name: Seq<char>,
    endpoint: Seq<char>,
    fetched: Seq<SourceView>,
    reason: Seq<char>,
)
    requires
        i < launch.with.len() <= usize::MAX,
    ensures
        ({
            let entry = launch.with[i as int];
            let file = after_inspection(launch, i, PathKind::File);
            let other = after_inspection(launch, i, PathKind::Other);
            let missing = after_inspection(launch, i, PathKind::Missing);
            &&& file.0.stage == LaunchStage::ReadingFile(i)
            &&& file.1.action == LaunchActionView::ReadProgramFile(entry)
            &&& file.1.notice == Some("📂 Loading local program from "@ + entry + "..."@)
            &&& other.0.stage == LaunchStage::Failed
            &&& other.1.action == LaunchActionView::Fail(
                "'"@ + entry + "' exists but is not a file."@,
            )
            &&& missing.0.stage == LaunchStage::FindingEndpoint(i)
            &&& missing.1.action == LaunchActionView::FindEndpoint
            &&& missing.1.notice is None
        }),
        ({
            let (after, step) = after_program_file(launch, i, bytecode, Ok(name));
            let last = launch.programs.len() as int;
            &&& has_come_to(after, step, launch.with, i + 1)
            &&& after.programs.len() == last + 1
            &&& forall|j: int| 0 <= j < last ==> #[trigger] after.programs[j] == launch.programs[j]
            &&& after.programs[last].name == name
            &&& after.programs[last].bytecode == bytecode
            &&& after.programs[last].debug_info is None
        }),
        after_program_file(launch, i, bytecode, Err(reason)).1.action == LaunchActionView::Fail(
            "Failed to parse program from '"@ + launch.with[i as int] + "': "@ + reason,
        ),
        ({
            let (after, step) = after_program_id(launch, i, endpoint, Ok(name));
            &&& after.stage == LaunchStage::Fetching(i)
            &&& step.action == (LaunchActionView::Fetch { program_id: name, endpoint })
            &&& after.programs == launch.programs
            &&& exists|full: Seq<char>|
                #[trigger] is_full_name(full, launch.with[i as int]) && step.notice == Some(
                    "⬇️  Fetching remote program "@ + full + " and its dependencies from "@
                        + endpoint + "..."@,
                )
        }),
        ({
            let (after, step) = after_program_id(launch, i, endpoint, Err(reason));
            &&& after.stage == LaunchStage::Failed
            &&& exists|full: Seq<char>|
                #[trigger] is_full_name(full, launch.with[i as int]) && step.action
                    == LaunchActionView::Fail(
                    "Failed to parse program ID '"@ + full + "': "@ + reason,
                )
        }),
        ({
            let (after, step) = after_fetch(launch, i, Ok(fetched));
            let last = launch.programs.len() as int;
            &&& has_come_to(after, step, launch.with, i + 1)
            &&& after.programs.len() == last + fetched.len()
            &&& forall|j: int| 0 <= j < last ==> #[trigger] after.programs[j] == launch.programs[j]
            &&& forall|j: int|
                0 <= j < fetched.len() ==> #[trigger] fetched[j] == after.programs[last + j]
        }),
        after_fetch(launch, i, Err(reason)).1.action == LaunchActionView::Fail(reason),
{
    assert(is_full_name(suffixed(launch.with[i as int]), launch.with[i as int]));
}

/// A package is refused if its last unit is a library, and otherwise if it is known to be for a network
/// other than the test network; no other package is.
pub proof fn law_refusal(units: Seq<UnitView>, network: Result<NetworkName, Seq<char>>)
    ensures
        units.len() > 0 && units[units.len() - 1].is_library ==> refusal(units, network) == Some(
            "`leo debug` does not support library packages."@,
        ),
        !(units.len() > 0 && units[units.len() - 1].is_library) && (network == Ok::<
            NetworkName,
            Seq<char>,
        >(NetworkName::MainnetV0) || network == Ok::<NetworkName, Seq<char>>(NetworkName::CanaryV0))
            ==> refusal(units, network) == Some("`leo debug` only supports TestnetV0."@),
        !(units.len() > 0 && units[units.len() - 1].is_library) && (network is Err || network == Ok::<
            NetworkName,
            Seq<char>,
        >(NetworkName::TestnetV0)) ==> refusal(units, network) is None,
{
}

/// Where the default key is used, it is named.
pub proof fn law_default_key_is_named(fallback: Seq<char>)
    ensures
        key_notice(fallback) == "⚠️ No valid private key specified, defaulting to '"@ + fallback
            + "'."@,
{
}

/// One more program is known behind the others if it has a debug map, and changes nothing otherwise.
pub proof fn law_programs_with_debug_maps_are_known(
    programs: Seq<(Seq<char>, Option<ProgramDebugMap>)>,
    name: Seq<char>,
    map: Option<ProgramDebugMap>,
)
    ensures
        known_in(Seq::empty(), 0).len() == 0,
        map is None ==> known_in(programs.push((name, map)), 0) == known_in(programs, 0),
        map is Some ==> known_in(programs.push((name, map)), 0) == known_in(programs, 0).push(
            (name, map->0),
        ),
{
    lemma_one_more_known(programs, name, map, 0);
}

/// Breakpoints of the command line are looked for in all the programs that are to be loaded and have
/// debug maps, in their order.
pub proof fn law_sources_with_debug_maps_are_known(programs: Seq<SourceView>, more: SourceView)
    ensures
        known_sources(Seq::empty()).len() == 0,
        more.debug_info is None ==> known_sources(programs.push(more)) == known_sources(programs),
        more.debug_info is Some ==> known_sources(programs.push(more)) == known_sources(
            programs,
        ).push((more.name, more.debug_info->0)),
{
    let listed = Seq::new(programs.len(), |i: int| (programs[i].name, programs[i].debug_info));
    let longer = programs.push(more);
    assert(Seq::new(longer.len(), |i: int| (longer[i].name, longer[i].debug_info)) =~= listed.push(
        (more.name, more.debug_info),
    ));
    law_programs_with_debug_maps_are_known(listed, more.name, more.debug_info);
}

/// Breakpoints of the console are looked for in all the programs that are loaded and have debug maps,
/// in their order.
pub proof fn law_models_with_debug_maps_are_known(programs: Seq<ProgramModel>, more: ProgramModel)
    ensures
        known_models(Seq::empty()).len() == 0,
        more.debug_info is None ==> known_models(programs.push(more)) == known_models(programs),
        more.debug_info is Some ==> known_models(programs.push(more)) == known_models(
            programs,
        ).push((more.name, more.debug_info->0)),
{
    let listed = Seq::new(programs.len(), |i: int| (programs[i].name, programs[i].debug_info));
    let longer = programs.push(more);
    assert(Seq::new(longer.len(), |i: int| (longer[i].name, longer[i].debug_info)) =~= listed.push(
        (more.name, more.debug_info),
    ));
    law_programs_with_debug_maps_are_known(listed, more.name, more.debug_info);
}

proof fn lemma_one_more_known(
    programs: Seq<(Seq<char>, Option<ProgramDebugMap>)>,
    name: Seq<char>,
    map: Option<ProgramDebugMap>,
    from: int,
)
    requires
        0 <= from <= programs.len(),
    ensures
        map is None ==> known_in(programs.push((name, map)), from) == known_in(programs, from),
        map is Some ==> known_in(programs.push((name, map)), from) == known_in(programs, from).push(
            (name, map->0),
        ),
    decreases programs.len() - from,
{
    let more = programs.push((name, map));
    if from < programs.len() {
        lemma_one_more_known(programs, name, map, from + 1);
        assert(more[from] == programs[from]);
        if let Some(known) = programs[from].1 {
            if let Some(last) = map {
                assert(seq![(programs[from].0, known)] + known_in(programs, from + 1).push(
                    (name, last),
                ) =~= (seq![(programs[from].0, known)] + known_in(programs, from + 1)).push(
                    (name, last),
                ));
            }
        }
    } else {
        assert(more[from] == (name, map));
        assert(known_in(more, from + 1) =~= Seq::empty());
        assert(known_in(programs, from) =~= Seq::empty());
        if let Some(last) = map {
            assert(seq![(name, last)] + known_in(more, from + 1) =~= known_in(programs, from).push(
                (name, last),
            ));
        }
    }
}

/// The ID of a program file is the one that its bytecode gives the program.
pub proof fn law_program_file_has_its_own_id(bytecode: Seq<char>)
    ensures
        match outline_of(bytecode) {
            Ok(outline) => id_in(bytecode) == Ok::<Seq<char>, Seq<char>>(outline.id),
            Err(reason) => id_in(bytecode) == Err::<Seq<char>, Seq<char>>(reason),
        },
{
}

/// A program that is fetched keeps its name and its bytecode, and has no debug map.
pub proof fn law_fetched_programs(fetched: Seq<FetchedProgram>, i: int)
    requires
        0 <= i < fetched.len(),
    ensures
        fetched_views(fetched).len() == fetched.len(),
        fetched_views(fetched)[i].name == fetched[i].name@,
        fetched_views(fetched)[i].bytecode == fetched[i].bytecode@,
        fetched_views(fetched)[i].debug_info is None,
{
}

/// A debug map is what its file holds. That there is no file is no error; a file that cannot be read
/// and one that holds no debug map are different errors, with the path.
pub proof fn law_debug_map_is_what_is_found(path: Seq<char>, map: ProgramDebugMap)
    ensures
        loaded(path, Found::Parsed(map)) == Ok::<Option<ProgramDebugMap>, Seq<char>>(Some(map)),
        loaded(path, Found::Missing) == Ok::<Option<ProgramDebugMap>, Seq<char>>(None),
        loaded(path, Found::Unreadable) == Err::<Option<ProgramDebugMap>, Seq<char>>(
            "failed to read debug info at "@ + path,
        ),
        loaded(path, Found::Malformed) == Err::<Option<ProgramDebugMap>, Seq<char>>(
            "failed to parse debug info at "@ + path,
        ),
{
}

} // verus!
