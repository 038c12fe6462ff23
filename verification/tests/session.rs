use indexmap::IndexMap;
use leo_debugger::breakpoints::{BreakpointKey, ReverseIndex};
use leo_debugger::debug_map::{DebugInstructions, DebugLoc, ProgramDebugMap};
use leo_debugger::hook::{
    Context, DebugAction, DebugCommand, DebugEvent, DebugPoint, DebugPointKind, HookAction, Phase,
};
use leo_debugger::session::{
    full_chain, CallReading, ProgramSource, RunAction, Session, SessionConfig, Stage,
};
use leo_debugger::vm::{FunctionOutline, ProgramOutline};

fn demo_program() -> (ProgramSource, ReverseIndex) {
    let bytecode = r"
program debug_info.aleo;

mapping counts:
    key as u32.public;
    value as u32.public;

function bump:
    input r0 as u32.private;
    add r0 r0 into r1;
    async bump r1 into r2;
    output r2 as debug_info.aleo/bump.future;

finalize bump:
    input r0 as u32.public;
    set r0 into counts[0u32];
"
    .to_string();

    let mut functions = IndexMap::new();
    functions.insert(
        "bump".to_string(),
        DebugInstructions { instructions: vec![Some(DebugLoc { file: 0, line: 9, col: 5 }), None] },
    );
    let mut finalizes = IndexMap::new();
    finalizes.insert(
        "bump".to_string(),
        DebugInstructions { instructions: vec![Some(DebugLoc { file: 0, line: 14, col: 5 })] },
    );

    let debug_info = ProgramDebugMap {
        source_files: vec!["main.leo".to_string()],
        functions,
        closures: IndexMap::new(),
        finalizes,
        views: IndexMap::new(),
        constructor: None,
    };

    let reverse_index = ReverseIndex::build(&debug_info);
    (
        ProgramSource { name: "debug_info.aleo".to_string(), bytecode, debug_info: Some(debug_info) },
        reverse_index,
    )
}

fn plain_program(name: &str) -> ProgramSource {
    let bytecode = format!(
        "program {name};\n\nfunction main:\n    input r0 as u32.public;\n    add r0 1u32 into r1;\n    output r1 as u32.public;\n"
    );
    ProgramSource { name: name.to_string(), bytecode, debug_info: None }
}

fn config(programs: Vec<ProgramSource>, program: &str, function: &str, inputs: &[&str]) -> SessionConfig {
    SessionConfig {
        programs,
        program_id: program.to_string(),
        function_name: function.to_string(),
        inputs: inputs.iter().map(|s| s.to_string()).collect(),
        initial_breakpoints: Vec::new(),
    }
}

fn point(kind: DebugPointKind, index: usize) -> DebugPoint {
    DebugPoint {
        program_id: "debug_info.aleo".to_string(),
        function_name: "bump".to_string(),
        kind,
        index,
        text: "add r0 r0 into r1;".to_string(),
        depth: 0,
        registers: vec![(0, "5u32".to_string())],
    }
}

/// Runs the stages up to the given one, all of them ending well.
fn run_until(session: &mut Session, stage: Stage) -> RunAction {
    let mut action = session.run.start();
    while session.run.stage != stage {
        if let RunAction::End(event) = action {
            panic!("ended early: {event:?}");
        }
        action = session.run.advance(Ok(()));
    }
    action
}

fn end_of(action: RunAction) -> DebugEvent {
    match action {
        RunAction::End(event) => event,
        other => panic!("unexpected action: {other:?}"),
    }
}

fn reason_of(action: RunAction) -> String {
    match end_of(action) {
        DebugEvent::Halted { reason } => reason,
        other => panic!("unexpected event: {other:?}"),
    }
}

#[test]
fn test_breakpoint_hit_then_continue_reaches_finalize_and_finishes() {
    let (program, reverse_index) = demo_program();

    let (function, context, index, resolved_line) = reverse_index.resolve(0, 9).unwrap();
    assert_eq!(function, "bump");
    assert_eq!(context, Context::Transition);
    assert_eq!(index, 0);
    assert_eq!(resolved_line, 9);

    let mut session = Session::spawn(SessionConfig {
        programs: vec![program],
        program_id: "debug_info.aleo".to_string(),
        function_name: "bump".to_string(),
        inputs: vec!["5u32".to_string()],
        initial_breakpoints: vec![BreakpointKey {
            program: "debug_info.aleo".to_string(),
            function: function.clone(),
            context,
            index,
        }],
    });

    assert!(matches!(run_until(&mut session, Stage::Evaluating), RunAction::Evaluate));

    let first = point(DebugPointKind::Instruction, 0);
    match session.hook.reach(&session.state, first, Vec::new()) {
        HookAction::Stop(DebugEvent::Stopped(position)) => {
            assert_eq!(position.program, "debug_info.aleo");
            assert_eq!(position.function, "bump");
            assert_eq!(position.context, Context::Transition);
            assert_eq!(position.index, 0);
            assert_eq!(position.depth, 0);
            let loc = position.loc.unwrap();
            assert_eq!((loc.file, loc.line), (0, 9));
        }
        other => panic!("unexpected event: {other:?}"),
    }

    assert_eq!(session.hook.command(DebugCommand::Continue), DebugAction::Continue);
    let second = point(DebugPointKind::Instruction, 1);
    assert!(matches!(
        session.hook.reach(&session.state, second, Vec::new()),
        HookAction::Report(DebugEvent::Progress(_))
    ));

    assert!(matches!(session.run.advance(Ok(())), RunAction::BuildExecution));
    match session.run.advance(Ok(())) {
        RunAction::BuildState(DebugEvent::PhaseChange(Phase::Finalize)) => {}
        other => panic!("unexpected event: {other:?}"),
    }
    assert!(matches!(session.run.advance(Ok(())), RunAction::Finalize));
    let finalize = point(DebugPointKind::FinalizeCommand, 0);
    assert!(matches!(
        session.hook.reach(&session.state, finalize, Vec::new()),
        HookAction::Report(DebugEvent::Progress(_))
    ));
    match end_of(session.run.advance(Ok(()))) {
        DebugEvent::Finished => {}
        other => panic!("unexpected event: {other:?}"),
    }
}

#[test]
fn a_function_without_finalize_logic_finishes_after_its_evaluation() {
    let mut session =
        Session::spawn(config(vec![plain_program("plain.aleo")], "plain.aleo", "main", &["1u32"]));
    run_until(&mut session, Stage::Evaluating);
    assert!(matches!(end_of(session.run.advance(Ok(()))), DebugEvent::Finished));
    assert_eq!(session.run.stage, Stage::Ended);
}

#[test]
fn the_stages_come_in_their_order() {
    let (program, _) = demo_program();
    let mut session = Session::spawn(config(
        vec![program, plain_program("plain.aleo")],
        "debug_info.aleo",
        "bump",
        &["5u32"],
    ));
    assert!(matches!(session.run.start(), RunAction::LoadProcess));
    assert!(matches!(session.run.advance(Ok(())), RunAction::AddProgram(0)));
    assert!(matches!(session.run.advance(Ok(())), RunAction::AddProgram(1)));
    assert!(matches!(session.run.advance(Ok(())), RunAction::OpenStore));
    assert!(matches!(session.run.advance(Ok(())), RunAction::Authorize));
    assert!(matches!(session.run.advance(Ok(())), RunAction::Evaluate));
    assert!(matches!(session.run.advance(Ok(())), RunAction::BuildExecution));
    assert!(matches!(
        session.run.advance(Ok(())),
        RunAction::BuildState(DebugEvent::PhaseChange(Phase::Finalize))
    ));
    assert!(matches!(session.run.advance(Ok(())), RunAction::Finalize));
    assert!(matches!(session.run.advance(Ok(())), RunAction::End(DebugEvent::Finished)));
}

#[test]
fn bytecode_that_is_none_halts_the_session() {
    let broken = ProgramSource {
        name: "broken.aleo".to_string(),
        bytecode: "this is no program".to_string(),
        debug_info: None,
    };
    let mut session = Session::spawn(config(vec![broken], "broken.aleo", "main", &[]));
    session.run.start();
    let reason = reason_of(session.run.advance(Ok(())));
    assert!(reason.starts_with("failed to parse bytecode for 'broken.aleo': Failed to parse string. "));
}

#[test]
fn a_call_that_is_not_in_order_halts_the_session() {
    let check = |program: &str, function: &str, inputs: &[&str]| {
        let mut session =
            Session::spawn(config(vec![plain_program("plain.aleo")], program, function, inputs));
        run_until(&mut session, Stage::OpeningStore);
        reason_of(session.run.advance(Ok(())))
    };
    assert!(check("plain", "main", &[]).starts_with("invalid program ID 'plain': "));
    assert!(check("plain.aleo", "1main", &[])
        .starts_with("invalid function name '1main': Identifier must start with a letter"));
    assert_eq!(
        check("plain.aleo", "", &[]),
        "invalid function name '': Identifier cannot be empty"
    );
    assert!(check("plain.aleo", "main", &["1u32", "?", "!"]).starts_with("invalid input '?': "));
}

#[test]
fn the_failure_of_a_stage_is_reported_with_its_reason() {
    let stages = [
        (Stage::LoadingProcess, "failed to load a fresh snarkVM process: because"),
        (Stage::AddingProgram(0), "failed to add program 'debug_info.aleo': because"),
        (Stage::OpeningStore, "failed to open an in-memory finalize store: because"),
        (Stage::Authorizing, "failed to authorize the call: because"),
        (Stage::Evaluating, "evaluation failed: because"),
        (
            Stage::BuildingExecution,
            "failed to build an execution from the authorized transitions: because",
        ),
        (Stage::BuildingState, "failed to build finalize global state: because"),
        (Stage::Finalizing, "finalization failed: because"),
    ];
    for (stage, expected) in stages {
        let (program, _) = demo_program();
        let mut session =
            Session::spawn(config(vec![program], "debug_info.aleo", "bump", &["5u32"]));
        run_until(&mut session, stage);
        assert_eq!(reason_of(session.run.advance(Err("because".to_string()))), expected);
        assert_eq!(session.run.stage, Stage::Ended);
    }
}

#[test]
fn parsed_programs_are_taken_in() {
    let mut session =
        Session::spawn(config(vec![plain_program("plain.aleo")], "plain.aleo", "main", &[]));
    session.run.start();
    let outline = ProgramOutline {
        id: "plain.aleo".to_string(),
        functions: vec![FunctionOutline { name: "main".to_string(), has_finalize: true }],
    };
    assert!(matches!(session.run.program_parsed(0, Ok(outline.clone())), RunAction::AddProgram(0)));
    assert_eq!(session.run.outlines, vec![outline]);
    let reason = reason_of(session.run.program_parsed(0, Err("no".to_string())));
    assert_eq!(reason, "failed to parse bytecode for 'plain.aleo': no");
}

#[test]
fn the_first_problem_of_a_call_is_described() {
    let session = Session::spawn(config(
        vec![plain_program("plain.aleo")],
        "plain.aleo",
        "main",
        &["a", "b", "c"],
    ));
    let problem = |reading: CallReading| session.run.describe_problem(&reading);
    assert_eq!(problem(CallReading::Fine), None);
    assert_eq!(
        problem(CallReading::BadInput(1, "wrong".to_string())).unwrap(),
        "invalid input 'b': wrong"
    );
    assert_eq!(
        problem(CallReading::BadFunctionName("bad".to_string())).unwrap(),
        "invalid function name 'main': bad"
    );
    assert_eq!(
        problem(CallReading::BadProgramId("bad".to_string())).unwrap(),
        "invalid program ID 'plain.aleo': bad"
    );
}

fn overlong_literal() -> String {
    format!("\"{}\"", "a".repeat(256))
}

fn overlong_program(name: &str) -> ProgramSource {
    ProgramSource {
        name: name.to_string(),
        bytecode: format!("program {name};\n\nfunction main:\n    log {};\n", overlong_literal()),
        debug_info: None,
    }
}

#[test]
fn what_follows_the_first_problem_of_a_call_is_not_read() {
    let check = |program: &str, function: &str, inputs: &[&str]| {
        let mut session =
            Session::spawn(config(vec![plain_program("plain.aleo")], program, function, inputs));
        run_until(&mut session, Stage::OpeningStore);
        session.run.try_advance(Ok(()))
    };
    let overlong = overlong_literal();
    let reason = reason_of(check("plain.aleo", "main", &["1u32", "bad", &overlong]).unwrap());
    assert!(reason.starts_with("invalid input 'bad': "));
    let reason = reason_of(check("plain.aleo", "1main", &[&overlong]).unwrap());
    assert!(reason.starts_with("invalid function name '1main': "));
    let reason = reason_of(check("plain", "main", &[&overlong]).unwrap());
    assert!(reason.starts_with("invalid program ID 'plain': "));
    assert!(check("plain.aleo", "main", &["1u32", &overlong, "bad"]).is_none());
    assert!(check("plain.aleo", "main", &[&overlong]).is_none());
    assert!(matches!(check("plain.aleo", "main", &["1u32"]), Some(RunAction::Authorize)));
}

#[test]
fn what_follows_the_first_program_that_fails_is_not_read() {
    let broken = ProgramSource {
        name: "broken.aleo".to_string(),
        bytecode: "this is no program".to_string(),
        debug_info: None,
    };
    let programs = vec![broken, overlong_program("long.aleo")];
    let mut session =
        Session::spawn(config(programs, "broken.aleo", "main", &[&overlong_literal()]));
    session.run.start();
    let reason = reason_of(session.run.try_advance(Ok(())).unwrap());
    assert!(reason.starts_with("failed to parse bytecode for 'broken.aleo': "));

    let programs = vec![plain_program("plain.aleo"), overlong_program("long.aleo")];
    let mut session = Session::spawn(config(programs.clone(), "plain.aleo", "main", &[]));
    run_until(&mut session, Stage::AddingProgram(0));
    let reason = reason_of(session.run.try_advance(Err("because".to_string())).unwrap());
    assert_eq!(reason, "failed to add program 'plain.aleo': because");

    let mut session = Session::spawn(config(programs, "plain.aleo", "main", &[]));
    run_until(&mut session, Stage::AddingProgram(0));
    assert!(session.run.try_advance(Ok(())).is_none());
    assert_eq!(session.run.stage, Stage::AddingProgram(0));
    assert_eq!(session.run.outlines.len(), 1);

    let programs = vec![overlong_program("long.aleo")];
    let mut session = Session::spawn(config(programs, "long.aleo", "main", &[]));
    session.run.start();
    assert!(session.run.try_advance(Ok(())).is_none());
    assert_eq!(session.run.stage, Stage::LoadingProcess);
}

#[test]
fn the_later_debug_map_of_a_name_counts() {
    let (one, _) = demo_program();
    let (mut two, _) = demo_program();
    let mut functions = IndexMap::new();
    functions.insert(
        "bump".to_string(),
        DebugInstructions { instructions: vec![Some(DebugLoc { file: 0, line: 77, col: 1 })] },
    );
    two.debug_info.as_mut().unwrap().functions = functions;
    let mut third = plain_program("debug_info.aleo");
    third.debug_info = None;
    let session =
        Session::spawn(config(vec![one, two, third], "debug_info.aleo", "bump", &["5u32"]));
    let loc = session
        .state
        .source_loc("debug_info.aleo", DebugPointKind::Instruction, "bump", 0)
        .unwrap();
    assert_eq!((loc.line, loc.col), (77, 1));
    assert_eq!(session.state.debug_maps.len(), 1);
}

#[test]
fn a_session_has_its_initial_breakpoints() {
    let (program, _) = demo_program();
    let mut setup = config(vec![program], "debug_info.aleo", "bump", &[]);
    let key = BreakpointKey {
        program: "debug_info.aleo".to_string(),
        function: "bump".to_string(),
        context: Context::Finalize,
        index: 0,
    };
    setup.initial_breakpoints = vec![key.clone(), key];
    let mut session = Session::spawn(setup);
    assert_eq!(session.state.breakpoints.iter().count(), 1);
    let action =
        session.hook.reach(&session.state, point(DebugPointKind::FinalizeCommand, 0), Vec::new());
    assert!(matches!(action, HookAction::Stop(DebugEvent::Stopped(_))));
}

#[test]
fn the_causes_of_an_error_are_joined() {
    let error = anyhow::Error::msg("root").context("middle").context("top");
    let causes: Vec<String> = error.chain().map(|cause| cause.to_string()).collect();
    assert_eq!(full_chain(&causes), "top: middle: root");
    assert_eq!(full_chain(&vec!["alone".to_string()]), "alone");
    assert_eq!(full_chain(&Vec::new()), "");
}
